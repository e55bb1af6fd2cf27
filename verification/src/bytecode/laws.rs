//! What generation keeps of a generator, and how it can fail.
use vstd::prelude::*;
use crate::bytecode::chunk::{ChunkView, ConstantView};
use crate::bytecode::expr::{
    captures, closed, finished_function, generated_assignment, generated_atom, generated_binary,
    generated_block, generated_call, generated_expr, generated_exprs, generated_function,
    generated_if, generated_params, generated_stmt, generated_stmts, generated_while, landed,
    opened, returned,
};
use crate::bytecode::state::{
    declare_variable,
    declaring_scope,
    first_upvalue,
    first_variable,
    leave,
    lemma_declare_keeps_slots_in_order,
    lemma_declaring_scope,
    lemma_enter_keeps_slots_in_order,
    lemma_first_variable,
    lemma_leave_keeps_slots_in_order,
    lemma_links_in_scopes,
    lemma_slots_by_shape,
    resolve_address,
    same_slots,
    slots_in_order,
    with_links,
    GenerationFault,
    ScopeType,
    ScopeView,
};
use crate::bytecode::{GeneratorView, Opcode, UpvalueView};
use crate::syntax::tree::{BinaryOperator, Expr, Stmt};

verus! {

/// A fault that is no defect of the generator: a name that nothing
/// declares, or a size that is beyond counting.
pub open spec fn benign(fault: GenerationFault) -> bool {
    fault == GenerationFault::UndeclaredName || fault == GenerationFault::TooManyVariables || fault
        == GenerationFault::JumpTooLong
}

/// The scopes `after` are the scopes `before` with more in them: as many
/// scopes, each of its kind and, but for the innermost, with its open
/// patches.
pub open spec fn scopes_kept(before: Seq<ScopeView>, after: Seq<ScopeView>) -> bool {
    &&& after.len() == before.len()
    &&& forall|i: int|
        0 <= i < before.len() ==> (#[trigger] after[i]).scope_type == before[i].scope_type
    &&& forall|i: int| 0 <= i < before.len() - 1 ==>
        (#[trigger] after[i]).patches == before[i].patches
}

/// The generator `after` is the generator `before` with more written: the
/// scopes are kept, the functions under way are as many and all but the
/// current one untouched, the current one has its instructions of before
/// at their places, and the functions written out of before are still
/// there.
pub open spec fn kept(before: GeneratorView, after: GeneratorView) -> bool {
    &&& scopes_kept(before.scopes, after.scopes)
    &&& after.functions.len() == before.functions.len()
    &&& forall|i: int|
        0 <= i < before.functions.len() - 1 ==>
            (#[trigger] after.functions[i]) == before.functions[i]
    &&& before.opcodes().len() <= after.opcodes().len()
    &&& forall|i: int|
        0 <= i < before.opcodes().len() ==> (#[trigger] after.opcodes()[i]) == before.opcodes()[i]
    &&& before.finished.len() <= after.finished.len()
}

/// `kept`, and the innermost scope has the open patches that it had.
pub open spec fn grown(before: GeneratorView, after: GeneratorView) -> bool {
    &&& kept(before, after)
    &&& after.scopes.last().patches == before.scopes.last().patches
}

/// Every chunk, of the functions under way and of those written out, is
/// well formed: its `Constant` instructions name entries of its pool.
pub open spec fn tidy(generator: GeneratorView) -> bool {
    &&& forall|i: int|
        0 <= i < generator.functions.len() ==>
            (#[trigger] generator.functions[i]).chunk.well_formed()
    &&& forall|i: int|
        0 <= i < generator.finished.len() ==> (#[trigger] generator.finished[i]).chunk.well_formed()
}

/// There is a scope and a function; every open patch of the innermost
/// scope names an instruction that is written; every chunk is well formed;
/// and every variable sits at the slot that follows those declared before
/// it in its frame.
pub open spec fn sound(generator: GeneratorView) -> bool {
    &&& generator.scopes.len() > 0
    &&& generator.functions.len() > 0
    &&& forall|p: usize|
        generator.scopes.last().patches.contains(p) ==> p < generator.opcodes().len()
    &&& tidy(generator)
    &&& slots_in_order(generator.scopes)
}

/// What a step of generation may do: grow a sound generator into a sound
/// one, or end in a benign fault.
pub open spec fn grows(
    before: GeneratorView,
    outcome: Result<GeneratorView, GenerationFault>,
) -> bool {
    match outcome {
        Ok(after) => grown(before, after) && sound(after),
        Err(fault) => benign(fault),
    }
}

pub proof fn lemma_kept_trans(a: GeneratorView, b: GeneratorView, c: GeneratorView)
    requires
        kept(a, b),
        kept(b, c),
    ensures
        kept(a, c),
{
    assert forall|i: int| 0 <= i < a.scopes.len() implies (#[trigger] c.scopes[i]).scope_type
        == a.scopes[i].scope_type by {
        assert(b.scopes[i].scope_type == a.scopes[i].scope_type);
    }
    assert forall|i: int| 0 <= i < a.scopes.len() - 1 implies (#[trigger] c.scopes[i]).patches
        == a.scopes[i].patches by {
        assert(b.scopes[i].patches == a.scopes[i].patches);
    }
    assert forall|i: int| 0 <= i < a.functions.len() - 1 implies (#[trigger] c.functions[i])
        == a.functions[i] by {
        assert(b.functions[i] == a.functions[i]);
    }
    assert forall|i: int| 0 <= i < a.opcodes().len() implies (#[trigger] c.opcodes()[i])
        == a.opcodes()[i] by {
        assert(b.opcodes()[i] == a.opcodes()[i]);
    }
}

pub proof fn lemma_grows_trans(
    a: GeneratorView,
    b: GeneratorView,
    outcome: Result<GeneratorView, GenerationFault>,
)
    requires
        grown(a, b),
        grows(b, outcome),
    ensures
        grows(a, outcome),
{
    if let Ok(c) = outcome {
        lemma_kept_trans(a, b, c);
    }
}

/// One more instruction grows a sound generator.
pub proof fn lemma_emit(generator: GeneratorView, opcode: Opcode)
    requires
        sound(generator),
        !(opcode is Constant),
    ensures
        grown(generator, generator.emit(opcode)),
        sound(generator.emit(opcode)),
        generator.emit(opcode).opcodes() == generator.opcodes().push(opcode),
        generator.emit(opcode).scopes == generator.scopes,
        generator.emit(opcode).finished == generator.finished,
        generator.emit(opcode).functions.len() == generator.functions.len(),
{
    let after = generator.emit(opcode);
    assert forall|i: int| 0 <= i < after.functions.len() implies (
    #[trigger] after.functions[i]).chunk.well_formed() by {
        assert(generator.functions[i].chunk.well_formed());
        if i == after.functions.len() - 1 {
            let chunk = after.functions[i].chunk;
            assert forall|k: int| 0 <= k < chunk.opcodes.len() implies (
            #[trigger] chunk.opcodes[k] matches Opcode::Constant(c) ==> c
                < chunk.constants.len()) by {
                if k < generator.opcodes().len() {
                    assert(chunk.opcodes[k] == generator.opcodes()[k]);
                }
            }
        }
    }
}

/// One more constant, with the instruction that pushes it, grows a sound
/// generator.
pub proof fn lemma_load(generator: GeneratorView, constant: ConstantView)
    requires
        sound(generator),
    ensures
        grown(generator, generator.load(constant)),
        sound(generator.load(constant)),
        generator.load(constant).opcodes().len() == generator.opcodes().len() + 1,
        generator.load(constant).scopes == generator.scopes,
{
    let after = generator.load(constant);
    assert forall|i: int| 0 <= i < after.functions.len() implies (
    #[trigger] after.functions[i]).chunk.well_formed() by {
        assert(generator.functions[i].chunk.well_formed());
        if i == after.functions.len() - 1 {
            let chunk = after.functions[i].chunk;
            assert forall|k: int| 0 <= k < chunk.opcodes.len() implies (
            #[trigger] chunk.opcodes[k] matches Opcode::Constant(c) ==> c
                < chunk.constants.len()) by {
                if k < generator.opcodes().len() {
                    assert(chunk.opcodes[k] == generator.opcodes()[k]);
                }
            }
        }
    }
}

/// A jump that is written to be patched later is open in the innermost
/// scope; all else is kept.
pub proof fn lemma_emit_patch(generator: GeneratorView, opcode: Opcode)
    requires
        sound(generator),
        generator.opcodes().len() <= usize::MAX,
        !(opcode is Constant),
    ensures
        kept(generator, generator.emit_patch(opcode)),
        sound(generator.emit_patch(opcode)),
        generator.emit_patch(opcode).opcodes() == generator.opcodes().push(opcode),
        generator.emit_patch(opcode).scopes.last().patches
            == generator.scopes.last().patches.insert(generator.opcodes().len() as usize),
{
    lemma_emit(generator, opcode);
    lemma_patches(generator.emit(opcode), generator.emit_patch(opcode).scopes.last().patches);
}

/// Other open patches for the innermost scope leave the slots in order and
/// the chunks as they are.
pub proof fn lemma_patches(generator: GeneratorView, patches: Set<usize>)
    requires
        generator.scopes.len() > 0,
        tidy(generator),
        slots_in_order(generator.scopes),
    ensures
        tidy(generator.with_patches(patches)),
        slots_in_order(generator.with_patches(patches).scopes),
        generator.with_patches(patches).functions == generator.functions,
        generator.with_patches(patches).finished == generator.finished,
{
    let after = generator.with_patches(patches);
    assert(same_slots(generator.scopes, after.scopes));
    lemma_slots_by_shape(generator.scopes, after.scopes);
}

/// Landing a jump that the innermost scope owns closes its patch; all else
/// is kept, but that the jump has its distance and one instruction is
/// written. It fails only by a distance that cannot be expressed.
pub proof fn lemma_landed(generator: GeneratorView, index: usize)
    requires
        sound(generator),
        generator.scopes.last().patches.contains(index),
        generator.opcodes()[index as int].is_jump(),
    ensures
        match landed(generator, index) {
            Ok(after) => {
                &&& scopes_kept(generator.scopes, after.scopes)
                &&& after.scopes.last().patches == generator.scopes.last().patches.remove(index)
                &&& after.functions.len() == generator.functions.len()
                &&& forall|i: int|
                    0 <= i < generator.functions.len() - 1 ==> (#[trigger] after.functions[i])
                        == generator.functions[i]
                &&& after.opcodes().len() == generator.opcodes().len() + 1
                &&& forall|i: int|
                    0 <= i < generator.opcodes().len() && i != index ==> (
                    #[trigger] after.opcodes()[i]) == generator.opcodes()[i]
                &&& after.opcodes()[index as int].is_jump()
                &&& after.finished == generator.finished
                &&& sound(after)
            },
            Err(fault) => fault == GenerationFault::JumpTooLong,
        },
{
    lemma_emit(generator, Opcode::Pop(0));
    let padded = generator.emit(Opcode::Pop(0));
    if landed(generator, index) is Ok {
        let after = landed(generator, index).unwrap();
        let opcodes = padded.opcodes().update(
            index as int,
            padded.opcodes()[index as int].with_distance(
                (padded.opcodes().len() - index - 1) as isize,
            ),
        );
        let written = padded.with_chunk(
            ChunkView { opcodes, constants: padded.constants() },
        );
        assert forall|i: int| 0 <= i < written.functions.len() implies (
        #[trigger] written.functions[i]).chunk.well_formed() by {
            assert(padded.functions[i].chunk.well_formed());
            if i == written.functions.len() - 1 {
                let chunk = written.functions[i].chunk;
                assert forall|k: int| 0 <= k < chunk.opcodes.len() implies (
                #[trigger] chunk.opcodes[k] matches Opcode::Constant(c) ==> c
                    < chunk.constants.len()) by {
                    if k != index {
                        assert(chunk.opcodes[k] == padded.opcodes()[k]);
                    }
                }
            }
        }
        lemma_patches(written, padded.scopes.last().patches.remove(index));
    }
}

/// Resolving a name keeps the scopes, and fails only for a name that
/// nothing declares.
pub proof fn lemma_resolve(scopes: Seq<ScopeView>, name: Seq<char>)
    requires
        scopes.len() > 0,
    ensures
        match resolve_address(scopes, name) {
            Ok((after, _)) => scopes_kept(scopes, after) && after.last().patches
                == scopes.last().patches && same_slots(scopes, after),
            Err(fault) => fault == GenerationFault::UndeclaredName,
        },
{
    if first_variable(scopes.last().variables, name) is None {
        if first_upvalue(scopes.last().upvalues, name) is None {
            lemma_declaring_scope(scopes, name);
            if let Some(d) = declaring_scope(scopes, name) {
                let v = first_variable(scopes[d].variables, name).unwrap();
                let slot = scopes[d].variables[v].index;
                let closed = scopes.update(d, scopes[d].close(v));
                lemma_links_in_scopes(closed, d + 1, slot, true, name);
                let after = with_links(closed, d + 1, slot, true, name);
                lemma_first_variable(scopes[d].variables, name);
                assert forall|i: int| 0 <= i < scopes.len() implies (#[trigger] after[i]).scope_type
                    == scopes[i].scope_type && after[i].patches == scopes[i].patches
                    && after[i].variables == closed[i].variables by {
                    assert(closed[i].scope_type == scopes[i].scope_type);
                    assert(closed[i].patches == scopes[i].patches);
                }
                assert forall|i: int| 0 <= i < scopes.len() implies (#[trigger] scopes[i]).scope_type
                    == after[i].scope_type && scopes[i].variables.len()
                    == after[i].variables.len() by {
                    assert(after[i].variables == closed[i].variables);
                    assert(closed[i].variables.len() == scopes[i].variables.len());
                }
                assert forall|i: int, p: int|
                    0 <= i < scopes.len() && 0 <= p < scopes[i].variables.len() implies (
                #[trigger] scopes[i].variables[p]).index == after[i].variables[p].index by {
                    assert(after[i].variables == closed[i].variables);
                    assert(closed[i].variables[p].index == scopes[i].variables[p].index);
                }
            }
        }
    }
}

/// Declaring a name keeps the scopes and their open patches, and fails
/// only if the slots cannot be counted.
pub proof fn lemma_declare(scopes: Seq<ScopeView>, name: Seq<char>)
    requires
        scopes.len() > 0,
    ensures
        match declare_variable(scopes, name) {
            Ok(after) => scopes_kept(scopes, after) && after.last().patches
                == scopes.last().patches && (slots_in_order(scopes) ==> slots_in_order(after)),
            Err(fault) => fault == GenerationFault::TooManyVariables,
        },
{
    if let Ok(after) = declare_variable(scopes, name) {
        if slots_in_order(scopes) {
            lemma_declare_keeps_slots_in_order(
                scopes,
                crate::bytecode::VariableView {
                    name,
                    depth: (crate::bytecode::state::non_block_count(scopes) - 1) as usize,
                    index: crate::bytecode::state::next_slot(scopes) as usize,
                    upvalue_index: None,
                },
            );
        }
    }
}

/// Other scopes in place of kept ones keep a generator, as far as the
/// scopes go.
pub proof fn lemma_with_scopes(generator: GeneratorView, scopes: Seq<ScopeView>)
    requires
        sound(generator),
        scopes_kept(generator.scopes, scopes),
        scopes.last().patches == generator.scopes.last().patches,
        slots_in_order(scopes),
    ensures
        grown(generator, generator.with_scopes(scopes)),
        sound(generator.with_scopes(scopes)),
{
}

/// The instructions that capture links grow a sound generator.
pub proof fn lemma_captures(generator: GeneratorView, links: Seq<UpvalueView>, count: nat)
    requires
        sound(generator),
    ensures
        grown(generator, captures(generator, links, count)),
        sound(captures(generator, links, count)),
    decreases count,
{
    if count == 0 || count > links.len() {
    } else {
        lemma_captures(generator, links, (count - 1) as nat);
        let before = captures(generator, links, (count - 1) as nat);
        lemma_emit(before, crate::bytecode::expr::capture_opcode(links[count - 1]));
        lemma_kept_trans(generator, before, captures(generator, links, count));
    }
}

/// Opening a jump keeps a sound generator and fails only by a position
/// that cannot be counted.
pub proof fn lemma_jumped(generator: GeneratorView, opcode: Opcode)
    requires
        sound(generator),
        opcode.is_jump(),
    ensures
        match crate::bytecode::expr::jumped(generator, opcode) {
            Ok((after, index)) => {
                &&& kept(generator, after)
                &&& sound(after)
                &&& index == generator.opcodes().len()
                &&& after.opcodes().len() == generator.opcodes().len() + 1
                &&& after.opcodes()[index as int] == opcode
                &&& after.scopes.last().patches == generator.scopes.last().patches.insert(index)
                &&& !generator.scopes.last().patches.contains(index)
            },
            Err(fault) => fault == GenerationFault::JumpTooLong,
        },
{
    if generator.opcodes().len() <= usize::MAX {
        lemma_emit_patch(generator, opcode);
    }
}

/// Lowering a literal or a name grows a sound generator or ends in a
/// benign fault.
pub proof fn lemma_atom(generator: GeneratorView, value: crate::syntax::tree::AtomicValue)
    requires
        sound(generator),
    ensures
        grows(generator, generated_atom(generator, value)),
{
    match value {
        crate::syntax::tree::AtomicValue::Number(n) => {
            lemma_load(generator, ConstantView::Number(n));
        },
        crate::syntax::tree::AtomicValue::Boolean(b) => {
            lemma_load(generator, ConstantView::Bool(b));
        },
        crate::syntax::tree::AtomicValue::Text(t) => {
            lemma_load(generator, ConstantView::Text(t@));
        },
        crate::syntax::tree::AtomicValue::Null => {
            lemma_emit(generator, Opcode::Null);
        },
        crate::syntax::tree::AtomicValue::Identifier(name) => {
            lemma_resolve(generator.scopes, name@);
            if let Ok((scopes, address)) = resolve_address(generator.scopes, name@) {
                lemma_slots_by_shape(generator.scopes, scopes);
                lemma_with_scopes(generator, scopes);
                let resolved = generator.with_scopes(scopes);
                lemma_load(resolved, ConstantView::MemoryAddress(address));
                let loaded = resolved.load(ConstantView::MemoryAddress(address));
                lemma_emit(loaded, Opcode::Get);
                lemma_kept_trans(generator, resolved, loaded);
                lemma_kept_trans(generator, loaded, loaded.emit(Opcode::Get));
            }
        },
    }
}

/// Landing a jump that was written after `base` keeps what `base` had.
pub proof fn lemma_land(base: GeneratorView, generator: GeneratorView, index: usize)
    requires
        sound(base),
        kept(base, generator),
        sound(generator),
        index >= base.opcodes().len(),
        generator.scopes.last().patches.contains(index),
        generator.opcodes()[index as int].is_jump(),
    ensures
        match landed(generator, index) {
            Ok(after) => {
                &&& kept(base, after)
                &&& sound(after)
                &&& after.scopes.last().patches == generator.scopes.last().patches.remove(index)
                &&& after.opcodes().len() == generator.opcodes().len() + 1
                &&& forall|i: int|
                    0 <= i < generator.opcodes().len() && i != index ==> (
                    #[trigger] after.opcodes()[i]) == generator.opcodes()[i]
            },
            Err(fault) => fault == GenerationFault::JumpTooLong,
        },
{
    lemma_landed(generator, index);
    if let Ok(after) = landed(generator, index) {
        assert forall|i: int| 0 <= i < base.scopes.len() implies (
        #[trigger] after.scopes[i]).scope_type == base.scopes[i].scope_type by {
            assert(generator.scopes[i].scope_type == base.scopes[i].scope_type);
        }
        assert forall|i: int| 0 <= i < base.scopes.len() - 1 implies (
        #[trigger] after.scopes[i]).patches == base.scopes[i].patches by {
            assert(generator.scopes[i].patches == base.scopes[i].patches);
        }
        assert forall|i: int| 0 <= i < base.functions.len() - 1 implies (
        #[trigger] after.functions[i]) == base.functions[i] by {
            assert(generator.functions[i] == base.functions[i]);
        }
        assert forall|i: int| 0 <= i < base.opcodes().len() implies (
        #[trigger] after.opcodes()[i]) == base.opcodes()[i] by {
            assert(generator.opcodes()[i] == base.opcodes()[i]);
        }
    }
}

/// The two jumps of a choice between two pieces of code, from the point
/// where the first jump is open and the first piece is written: the second
/// jump is opened and the first one landed. `base` is the generator before
/// the choice, `first` the one after the first piece, in which the jump at
/// `a` is open.
pub proof fn lemma_between(base: GeneratorView, first: GeneratorView, a: usize, open: Set<usize>)
    requires
        sound(base),
        kept(base, first),
        sound(first),
        a >= base.opcodes().len(),
        first.opcodes()[a as int].is_jump(),
        first.scopes.last().patches == open.insert(a),
        !open.contains(a),
    ensures
        match crate::bytecode::expr::jumped(first, Opcode::Jp(0)) {
            Err(fault) => benign(fault),
            Ok((skipped, b)) => match landed(skipped, a) {
                Err(fault) => benign(fault),
                Ok(otherwise) => {
                    &&& kept(base, otherwise)
                    &&& sound(otherwise)
                    &&& b >= base.opcodes().len()
                    &&& b < otherwise.opcodes().len()
                    &&& otherwise.opcodes()[b as int].is_jump()
                    &&& otherwise.scopes.last().patches == open.insert(b)
                    &&& !open.contains(b)
                },
            },
        },
{
    lemma_jumped(first, Opcode::Jp(0));
    if let Ok((skipped, b)) = crate::bytecode::expr::jumped(first, Opcode::Jp(0)) {
        lemma_kept_trans(base, first, skipped);
        assert(skipped.opcodes()[a as int] == first.opcodes()[a as int]);
        lemma_land(base, skipped, a);
        if let Ok(otherwise) = landed(skipped, a) {
            assert(otherwise.opcodes()[b as int] == skipped.opcodes()[b as int]);
            assert(otherwise.scopes.last().patches =~= open.insert(b));
        }
    }
}

/// The end of a choice: once the second piece is written, the second jump
/// is landed, and the choice has grown the generator.
pub proof fn lemma_end_of_choice(
    base: GeneratorView,
    second: GeneratorView,
    b: usize,
)
    requires
        sound(base),
        kept(base, second),
        sound(second),
        b >= base.opcodes().len(),
        b < second.opcodes().len(),
        second.opcodes()[b as int].is_jump(),
        second.scopes.last().patches == base.scopes.last().patches.insert(b),
        !base.scopes.last().patches.contains(b),
    ensures
        grows(base, landed(second, b)),
{
    lemma_land(base, second, b);
    if let Ok(after) = landed(second, b) {
        assert(after.scopes.last().patches =~= base.scopes.last().patches);
    }
}

/// A step that grows the generator, taken after `base`, keeps what `base`
/// had, the open patches of the innermost scope and every instruction that
/// was written.
pub proof fn lemma_step(
    base: GeneratorView,
    generator: GeneratorView,
    outcome: Result<GeneratorView, GenerationFault>,
)
    requires
        kept(base, generator),
        grows(generator, outcome),
    ensures
        match outcome {
            Ok(after) => {
                &&& kept(base, after)
                &&& sound(after)
                &&& after.scopes.last().patches == generator.scopes.last().patches
                &&& after.opcodes().len() >= generator.opcodes().len()
                &&& forall|i: int|
                    0 <= i < generator.opcodes().len() ==> (#[trigger] after.opcodes()[i])
                        == generator.opcodes()[i]
            },
            Err(fault) => benign(fault),
        },
{
    if let Ok(after) = outcome {
        lemma_kept_trans(base, generator, after);
    }
}

/// The law of generation, for expressions: lowering an expression into a
/// sound generator ends in a benign fault, or it only adds to the code,
/// leaves the scopes open as they were, and leaves open the patches that
/// were open before and no other.
pub proof fn lemma_expr(generator: GeneratorView, expr: Expr)
    requires
        sound(generator),
    ensures
        grows(generator, generated_expr(generator, expr)),
    decreases expr, 1nat,
{
    match expr {
        Expr::Atom(value) => {
            lemma_atom(generator, value.val);
        },
        Expr::Unary { op, rhs } => {
            lemma_expr(generator, *rhs);
            if let Ok(valued) = generated_expr(generator, *rhs) {
                let opcode = crate::bytecode::expr::unary_opcode(op.val);
                lemma_emit(valued, opcode);
                lemma_kept_trans(generator, valued, valued.emit(opcode));
            }
        },
        Expr::Binary { .. } => {
            lemma_binary(generator, expr);
        },
        Expr::If { .. } => {
            lemma_if(generator, expr);
        },
        Expr::While { .. } => {
            lemma_while(generator, expr);
        },
        Expr::Block { .. } => {
            lemma_block(generator, expr);
        },
        Expr::Assignment { .. } => {
            lemma_assignment(generator, expr);
        },
        Expr::Closure { params, body } => {
            lemma_function(generator, crate::bytecode::expr::CLOSURE_NAME@, params@, *body);
        },
        Expr::Call { .. } => {
            lemma_call(generator, expr);
        },
        Expr::Return { value } => {
            let valued = match value {
                Some(value) => {
                    lemma_expr(generator, *value);
                    generated_expr(generator, *value)
                },
                None => {
                    lemma_emit(generator, Opcode::Null);
                    Ok(generator.emit(Opcode::Null))
                },
            };
            if let Ok(valued) = valued {
                lemma_emit(valued, Opcode::Return);
                let ended = valued.emit(Opcode::Return);
                lemma_kept_trans(generator, valued, ended);
                let after = returned(ended);
                assert(scopes_kept(ended.scopes, after.scopes));
                assert(same_slots(ended.scopes, after.scopes));
                lemma_slots_by_shape(ended.scopes, after.scopes);
                lemma_with_scopes(ended, after.scopes);
                lemma_kept_trans(generator, ended, after);
            }
        },
    }
}

/// The law of generation, for operations on two expressions.
pub proof fn lemma_binary(generator: GeneratorView, expr: Expr)
    requires
        sound(generator),
    ensures
        grows(generator, generated_binary(generator, expr)),
    decreases expr, 0nat,
{
    if let Expr::Binary { lhs, op, rhs } = expr {
        lemma_expr(generator, *lhs);
        if let Ok(left) = generated_expr(generator, *lhs) {
            let open = left.scopes.last().patches;
            match op.val {
                BinaryOperator::And => {
                    lemma_jumped(left, Opcode::Jif(0));
                    if let Ok((tested, a)) = crate::bytecode::expr::jumped(left, Opcode::Jif(0)) {
                        lemma_expr(tested, *rhs);
                        lemma_step(left, tested, generated_expr(tested, *rhs));
                        if let Ok(right) = generated_expr(tested, *rhs) {
                            lemma_between(left, right, a, open);
                            if let Ok((skipped, b)) = crate::bytecode::expr::jumped(
                                right,
                                Opcode::Jp(0),
                            ) {
                                if let Ok(otherwise) = landed(skipped, a) {
                                    lemma_load(otherwise, ConstantView::Bool(false));
                                    let loaded = otherwise.load(ConstantView::Bool(false));
                                    lemma_kept_trans(left, otherwise, loaded);
                                    lemma_end_of_choice(left, loaded, b);
                                    lemma_grows_trans(generator, left, landed(loaded, b));
                                }
                            }
                        }
                    }
                },
                BinaryOperator::Or => {
                    lemma_jumped(left, Opcode::Jif(0));
                    if let Ok((tested, a)) = crate::bytecode::expr::jumped(left, Opcode::Jif(0)) {
                        lemma_load(tested, ConstantView::Bool(true));
                        let taken = tested.load(ConstantView::Bool(true));
                        lemma_kept_trans(left, tested, taken);
                        lemma_between(left, taken, a, open);
                        if let Ok((skipped, b)) = crate::bytecode::expr::jumped(
                            taken,
                            Opcode::Jp(0),
                        ) {
                            if let Ok(otherwise) = landed(skipped, a) {
                                lemma_expr(otherwise, *rhs);
                                lemma_step(left, otherwise, generated_expr(otherwise, *rhs));
                                if let Ok(right) = generated_expr(otherwise, *rhs) {
                                    lemma_end_of_choice(left, right, b);
                                    lemma_grows_trans(generator, left, landed(right, b));
                                }
                            }
                        }
                    }
                },
                other => {
                    lemma_expr(left, *rhs);
                    if let Ok(right) = generated_expr(left, *rhs) {
                        let opcode = crate::bytecode::expr::binary_opcode(other);
                        lemma_emit(right, opcode);
                        lemma_kept_trans(left, right, right.emit(opcode));
                        lemma_kept_trans(generator, left, right.emit(opcode));
                    }
                },
            }
        }
    }
}

/// The law of generation, for conditionals.
pub proof fn lemma_if(generator: GeneratorView, expr: Expr)
    requires
        sound(generator),
    ensures
        grows(generator, generated_if(generator, expr)),
    decreases expr, 0nat,
{
    if let Expr::If { condition, body, else_expr } = expr {
        lemma_expr(generator, *condition);
        if let Ok(tested) = generated_expr(generator, *condition) {
            let open = tested.scopes.last().patches;
            lemma_jumped(tested, Opcode::Jif(0));
            if let Ok((taken, a)) = crate::bytecode::expr::jumped(tested, Opcode::Jif(0)) {
                lemma_expr(taken, *body);
                lemma_step(tested, taken, generated_expr(taken, *body));
                if let Ok(first) = generated_expr(taken, *body) {
                    lemma_between(tested, first, a, open);
                    if let Ok((skipped, b)) = crate::bytecode::expr::jumped(first, Opcode::Jp(0)) {
                        if let Ok(otherwise) = landed(skipped, a) {
                            let second = match else_expr {
                                Some(other) => {
                                    lemma_expr(otherwise, *other);
                                    generated_expr(otherwise, *other)
                                },
                                None => {
                                    lemma_emit(otherwise, Opcode::Null);
                                    Ok(otherwise.emit(Opcode::Null))
                                },
                            };
                            lemma_step(tested, otherwise, second);
                            if let Ok(second) = second {
                                lemma_end_of_choice(tested, second, b);
                                lemma_grows_trans(generator, tested, landed(second, b));
                            }
                        }
                    }
                }
            }
        }
    }
}

/// The law of generation, for loops.
pub proof fn lemma_while(generator: GeneratorView, expr: Expr)
    requires
        sound(generator),
    ensures
        grows(generator, generated_while(generator, expr)),
    decreases expr, 0nat,
{
    if let Expr::While { condition, body } = expr {
        lemma_expr(generator, *condition);
        if let Ok(tested) = generated_expr(generator, *condition) {
            lemma_jumped(tested, Opcode::Jif(0));
            if let Ok((taken, exit)) = crate::bytecode::expr::jumped(tested, Opcode::Jif(0)) {
                lemma_expr(taken, *body);
                lemma_step(tested, taken, generated_expr(taken, *body));
                if let Ok(done) = generated_expr(taken, *body) {
                    lemma_emit(done, Opcode::Pop(1));
                    let dropped = done.emit(Opcode::Pop(1));
                    lemma_kept_trans(tested, done, dropped);
                    let back = dropped.opcodes().len() - generator.opcodes().len();
                    if 0 <= back <= isize::MAX {
                        let jump = Opcode::Jp((-back) as isize);
                        lemma_emit(dropped, jump);
                        let looped = dropped.emit(jump);
                        lemma_kept_trans(tested, dropped, looped);
                        lemma_end_of_choice(tested, looped, exit);
                        if let Ok(left) = landed(looped, exit) {
                            lemma_emit(left, Opcode::Null);
                            lemma_kept_trans(tested, left, left.emit(Opcode::Null));
                            lemma_kept_trans(generator, tested, left.emit(Opcode::Null));
                        }
                    }
                }
            }
        }
    }
}

/// The law of generation, for the end of a block whose scope was opened
/// inside `base` and owns no open patch.
pub proof fn lemma_closed(base: GeneratorView, generator: GeneratorView)
    requires
        sound(base),
        sound(generator),
        generator.scopes.len() == base.scopes.len() + 1,
        scopes_kept(base.scopes, generator.scopes.drop_last()),
        generator.scopes[base.scopes.len() - 1].patches == base.scopes.last().patches,
        generator.scopes.last().patches == Set::<usize>::empty(),
        generator.functions.len() == base.functions.len(),
        forall|i: int|
            0 <= i < base.functions.len() - 1 ==> (#[trigger] generator.functions[i])
                == base.functions[i],
        base.opcodes().len() <= generator.opcodes().len(),
        forall|i: int|
            0 <= i < base.opcodes().len() ==> (#[trigger] generator.opcodes()[i])
                == base.opcodes()[i],
        base.finished.len() <= generator.finished.len(),
    ensures
        grows(base, closed(generator)),
{
    let dropped = generator.emit(
        Opcode::Block(generator.scopes.last().variables.len() as usize),
    );
    lemma_emit(generator, Opcode::Block(generator.scopes.last().variables.len() as usize));
    assert(dropped.scopes.last().patches.len() == 0);
    let after = dropped.with_scopes(dropped.scopes.drop_last());
    assert(after.scopes =~= generator.scopes.drop_last());
    lemma_leave_keeps_slots_in_order(generator.scopes);
    assert forall|i: int| 0 <= i < base.opcodes().len() implies (#[trigger] after.opcodes()[i])
        == base.opcodes()[i] by {
        assert(generator.opcodes()[i] == base.opcodes()[i]);
    }
    assert forall|i: int| 0 <= i < base.functions.len() - 1 implies (
    #[trigger] after.functions[i]) == base.functions[i] by {
        assert(generator.functions[i] == base.functions[i]);
    }
}

/// The law of generation, for blocks.
pub proof fn lemma_block(generator: GeneratorView, expr: Expr)
    requires
        sound(generator),
    ensures
        grows(generator, generated_block(generator, expr)),
    decreases expr, 0nat,
{
    if let Expr::Block { stmts, return_expr } = expr {
        if crate::bytecode::state::frame_count(generator.scopes) <= usize::MAX {
            let fresh = ScopeView::fresh(
                ScopeType::Block,
                crate::bytecode::state::frame_count(generator.scopes) as usize,
            );
            let entered = generator.with_scopes(generator.scopes.push(fresh));
            lemma_enter_keeps_slots_in_order(generator.scopes, fresh);
            assert(sound(entered));
            lemma_stmts(entered, stmts@, stmts@.len());
            if let Ok(inside) = generated_stmts(entered, stmts@, stmts@.len()) {
                let valued = match return_expr {
                    Some(last) => {
                        lemma_expr(inside, *last);
                        generated_expr(inside, *last)
                    },
                    None => {
                        lemma_emit(inside, Opcode::Null);
                        Ok(inside.emit(Opcode::Null))
                    },
                };
                lemma_step(entered, inside, valued);
                if let Ok(valued) = valued {
                    assert(valued.scopes.drop_last().len() == generator.scopes.len());
                    assert forall|i: int| 0 <= i < generator.scopes.len() implies (
                    #[trigger] valued.scopes.drop_last()[i]).scope_type
                        == generator.scopes[i].scope_type by {
                        assert(valued.scopes[i].scope_type == entered.scopes[i].scope_type);
                    }
                    assert forall|i: int| 0 <= i < generator.scopes.len() implies (
                    #[trigger] valued.scopes.drop_last()[i]).patches
                        == generator.scopes[i].patches by {
                        assert(valued.scopes[i].patches == entered.scopes[i].patches);
                    }
                    assert forall|i: int| 0 <= i < generator.opcodes().len() implies (
                    #[trigger] valued.opcodes()[i]) == generator.opcodes()[i] by {
                        assert(valued.opcodes()[i] == entered.opcodes()[i]);
                    }
                    assert forall|i: int| 0 <= i < generator.functions.len() - 1 implies (
                    #[trigger] valued.functions[i]) == generator.functions[i] by {
                        assert(valued.functions[i] == entered.functions[i]);
                    }
                    lemma_closed(generator, valued);
                }
            }
        }
    }
}

/// The law of generation, for assignments.
pub proof fn lemma_assignment(generator: GeneratorView, expr: Expr)
    requires
        sound(generator),
    ensures
        grows(generator, generated_assignment(generator, expr)),
    decreases expr, 0nat,
{
    if let Expr::Assignment { target, value } = expr {
        lemma_resolve(generator.scopes, target@);
        if let Ok((scopes, address)) = resolve_address(generator.scopes, target@) {
            lemma_slots_by_shape(generator.scopes, scopes);
            lemma_with_scopes(generator, scopes);
            let resolved = generator.with_scopes(scopes);
            lemma_load(resolved, ConstantView::MemoryAddress(address));
            let loaded = resolved.load(ConstantView::MemoryAddress(address));
            lemma_kept_trans(generator, resolved, loaded);
            lemma_expr(loaded, *value);
            lemma_step(generator, loaded, generated_expr(loaded, *value));
            if let Ok(valued) = generated_expr(loaded, *value) {
                lemma_emit(valued, Opcode::Asg);
                let written = valued.emit(Opcode::Asg);
                lemma_kept_trans(generator, valued, written);
                lemma_load(written, ConstantView::MemoryAddress(address));
                let again = written.load(ConstantView::MemoryAddress(address));
                lemma_kept_trans(generator, written, again);
                lemma_emit(again, Opcode::Get);
                lemma_kept_trans(generator, again, again.emit(Opcode::Get));
            }
        }
    }
}

/// The law of generation, for lists of expressions.
pub proof fn lemma_exprs(generator: GeneratorView, exprs: Seq<Expr>, count: nat)
    requires
        sound(generator),
    ensures
        grows(generator, generated_exprs(generator, exprs, count)),
    decreases exprs, count,
{
    if count == 0 || count > exprs.len() {
    } else {
        lemma_exprs(generator, exprs, (count - 1) as nat);
        if let Ok(before) = generated_exprs(generator, exprs, (count - 1) as nat) {
            lemma_expr(before, exprs[count - 1]);
            lemma_grows_trans(generator, before, generated_expr(before, exprs[count - 1]));
        }
    }
}

/// The law of generation, for calls.
pub proof fn lemma_call(generator: GeneratorView, expr: Expr)
    requires
        sound(generator),
    ensures
        grows(generator, generated_call(generator, expr)),
    decreases expr, 0nat,
{
    if let Expr::Call { callee, args } = expr {
        lemma_exprs(generator, args@, args@.len());
        if let Ok(with_args) = generated_exprs(generator, args@, args@.len()) {
            lemma_expr(with_args, *callee);
            if let Ok(called) = generated_expr(with_args, *callee) {
                lemma_emit(called, Opcode::Call);
                lemma_kept_trans(with_args, called, called.emit(Opcode::Call));
                lemma_kept_trans(generator, with_args, called.emit(Opcode::Call));
            }
        }
    }
}

/// The law of generation, for parameters.
pub proof fn lemma_params(generator: GeneratorView, params: Seq<String>, count: nat)
    requires
        sound(generator),
    ensures
        grows(generator, generated_params(generator, params, count)),
    decreases count,
{
    if count == 0 || count > params.len() {
    } else {
        lemma_params(generator, params, (count - 1) as nat);
        if let Ok(before) = generated_params(generator, params, (count - 1) as nat) {
            lemma_declare(before.scopes, params[count - 1]@);
            if let Ok(scopes) = declare_variable(before.scopes, params[count - 1]@) {
                lemma_with_scopes(before, scopes);
                lemma_kept_trans(generator, before, before.with_scopes(scopes));
            }
        }
    }
}

/// The law of generation, for a function that is written out: `written` is
/// the generator after the body, which has grown from the one that
/// `opened` gives for `base`.
pub proof fn lemma_finished_function(
    base: GeneratorView,
    name: Seq<char>,
    arity: usize,
    written: GeneratorView,
)
    requires
        sound(base),
        grown(opened(base, name, arity), written),
        sound(written),
    ensures
        grows(base, finished_function(written)),
{
    let start = opened(base, name, arity);
    lemma_emit(written, Opcode::Return);
    let ended = written.emit(Opcode::Return);
    lemma_kept_trans(start, written, ended);
    assert(ended.scopes.last().patches.len() == 0);
    let scope = ended.scopes.last();
    let outer = GeneratorView {
        scopes: ended.scopes.drop_last(),
        functions: ended.functions.drop_last(),
        finished: ended.finished.push(ended.functions.last()),
    };
    assert(outer.functions =~= base.functions) by {
        assert forall|i: int| 0 <= i < base.functions.len() implies outer.functions[i]
            == base.functions[i] by {
            assert(ended.functions[i] == start.functions[i]);
        }
    }
    assert forall|i: int| 0 <= i < base.scopes.len() implies (#[trigger] outer.scopes[i]).scope_type
        == base.scopes[i].scope_type && outer.scopes[i].patches == base.scopes[i].patches by {
        assert(ended.scopes[i].scope_type == start.scopes[i].scope_type);
        assert(ended.scopes[i].patches == start.scopes[i].patches);
    }
    lemma_leave_keeps_slots_in_order(ended.scopes);
    assert forall|i: int| 0 <= i < outer.finished.len() implies (
    #[trigger] outer.finished[i]).chunk.well_formed() by {
        if i < ended.finished.len() {
            assert(ended.finished[i].chunk.well_formed());
        } else {
            assert(ended.functions[ended.functions.len() - 1].chunk.well_formed());
        }
    }
    assert forall|i: int| 0 <= i < outer.functions.len() implies (
    #[trigger] outer.functions[i]).chunk.well_formed() by {
        assert(ended.functions[i].chunk.well_formed());
    }
    assert(grown(base, outer));
    assert(sound(outer));
    let index = ended.finished.len() as usize;
    lemma_emit(outer, Opcode::Closure(index));
    let made = outer.emit(Opcode::Closure(index));
    lemma_kept_trans(base, outer, made);
    lemma_captures(made, scope.upvalues, scope.upvalues.len());
    lemma_kept_trans(base, made, captures(made, scope.upvalues, scope.upvalues.len()));
}

/// A function that is opened in a sound generator leaves it sound.
pub proof fn lemma_opened(generator: GeneratorView, name: Seq<char>, arity: usize)
    requires
        sound(generator),
    ensures
        sound(opened(generator, name, arity)),
{
    let start = opened(generator, name, arity);
    lemma_enter_keeps_slots_in_order(generator.scopes, ScopeView::fresh(ScopeType::Function, 0));
    assert forall|i: int| 0 <= i < start.functions.len() implies (
    #[trigger] start.functions[i]).chunk.well_formed() by {
        if i < generator.functions.len() {
            assert(generator.functions[i].chunk.well_formed());
        }
    }
}

/// The law of generation, for functions.
pub proof fn lemma_function(
    generator: GeneratorView,
    name: Seq<char>,
    params: Seq<String>,
    body: Expr,
)
    requires
        sound(generator),
    ensures
        grows(generator, generated_function(generator, name, params, body)),
    decreases body, 2nat,
{
    let start = opened(generator, name, params.len() as usize);
    lemma_opened(generator, name, params.len() as usize);
    lemma_params(start, params, params.len());
    if let Ok(with_params) = generated_params(start, params, params.len()) {
        lemma_expr(with_params, body);
        if let Ok(written) = generated_expr(with_params, body) {
            lemma_kept_trans(start, with_params, written);
            lemma_finished_function(generator, name, params.len() as usize, written);
        }
    }
}

/// The law of generation, for statements.
pub proof fn lemma_stmt(generator: GeneratorView, stmt: Stmt)
    requires
        sound(generator),
    ensures
        grows(generator, generated_stmt(generator, stmt)),
    decreases stmt, 3nat,
{
    match stmt {
        Stmt::Expression { expr } => {
            lemma_expr(generator, expr);
            if let Ok(valued) = generated_expr(generator, expr) {
                lemma_emit(valued, Opcode::Pop(1));
                lemma_kept_trans(generator, valued, valued.emit(Opcode::Pop(1)));
            }
        },
        Stmt::VariableDeclaration { name, expr } => {
            lemma_expr(generator, expr);
            if let Ok(valued) = generated_expr(generator, expr) {
                lemma_declare(valued.scopes, name@);
                if let Ok(scopes) = declare_variable(valued.scopes, name@) {
                    lemma_with_scopes(valued, scopes);
                    lemma_kept_trans(generator, valued, valued.with_scopes(scopes));
                }
            }
        },
        Stmt::FunctionDeclaration { name, params, body } => {
            lemma_declare(generator.scopes, name@);
            if let Ok(scopes) = declare_variable(generator.scopes, name@) {
                lemma_with_scopes(generator, scopes);
                let declared = generator.with_scopes(scopes);
                lemma_function(declared, name@, params@, body);
                lemma_grows_trans(
                    generator,
                    declared,
                    generated_function(declared, name@, params@, body),
                );
            }
        },
    }
}

/// The law of generation, for programs: lowering statements into a sound
/// generator, such as the one that a program starts from, ends in a benign
/// fault, or it only adds to the code, leaves the scopes open as they were,
/// and leaves no patch open that was not open before.
pub proof fn lemma_stmts(generator: GeneratorView, stmts: Seq<Stmt>, count: nat)
    requires
        sound(generator),
    ensures
        grows(generator, generated_stmts(generator, stmts, count)),
    decreases stmts, count,
{
    if count == 0 || count > stmts.len() {
    } else {
        lemma_stmts(generator, stmts, (count - 1) as nat);
        if let Ok(before) = generated_stmts(generator, stmts, (count - 1) as nat) {
            lemma_stmt(before, stmts[count - 1]);
            lemma_grows_trans(generator, before, generated_stmt(before, stmts[count - 1]));
        }
    }
}

/// The generator that a program starts from is sound.
pub proof fn lemma_initial_generator_is_sound()
    ensures
        sound(crate::bytecode::initial_generator()),
{
}

} // verus!
