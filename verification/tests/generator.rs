use gravitas::bytecode::{BytecodeGenerator, Opcode};

#[test]
fn it_patches_opcodes() {
    let mut generator = BytecodeGenerator::new();
    let patch = generator.emit_patch(Opcode::Jif(0));
    assert_eq!(patch.index, 0);
    // Adding some random opcodes to the chunk
    generator.write_opcode(Opcode::Add);
    generator.write_opcode(Opcode::Get);
    // We added some codes but the patched opcode remain the same
    assert_eq!(
        generator.clone().code().chunk.opcodes[patch.index],
        Opcode::Jif(0)
    );
    generator.patch(&patch).unwrap();
    // After the patch the opcode internal value should be changed to +2
    // because we added two new opcodes and the jump should jump by 2
    assert_eq!(
        generator.clone().code().chunk.opcodes[patch.index],
        Opcode::Jif(2)
    );
}

use gravitas::bytecode::chunk::{Chunk, Constant};
use gravitas::bytecode::state::{GenerationFault, ScopeType};
use gravitas::bytecode::{MemoryAddress, Patch};
use gravitas::common::MAIN_FUNCTION_NAME;

#[test]
fn a_generator_starts_with_the_top_level_function() {
    let mut generator = BytecodeGenerator::new();
    assert_eq!(generator.functions.len(), 1);
    assert_eq!(generator.functions[0].name, MAIN_FUNCTION_NAME);
    assert_eq!(generator.functions[0].arity, 0);
    assert_eq!(generator.state.scopes.len(), 1);
    assert_eq!(generator.write_opcode(Opcode::Null), 0);
    assert_eq!(generator.write_opcode(Opcode::Null), 1);
    assert_eq!(generator.write_constant(Constant::Bool(true)), 0);
    assert_eq!(generator.write_constant(Constant::Number(3)), 1);
    assert_eq!(generator.current_chunk().opcodes.len(), 2);
    let code = generator.code();
    assert_eq!(code.chunk.constants, vec![Constant::Bool(true), Constant::Number(3)]);
}

#[test]
fn a_patch_is_resolved_once_and_by_its_scope() {
    let mut generator = BytecodeGenerator::new();
    generator.write_opcode(Opcode::Null);
    let patch = generator.emit_patch(Opcode::Jp(0));
    assert_eq!(patch.index, 1);
    assert!(generator.state.scopes[0].patches.contains(&1));
    // no patch of that scope
    assert_eq!(generator.patch(&Patch { index: 0 }), Err(GenerationFault::UnknownPatch));
    // a scope inside does not own it
    generator.state.enter_scope(ScopeType::Block, 0);
    assert_eq!(generator.patch(&patch), Err(GenerationFault::UnknownPatch));
    generator.state.leave_scope().unwrap();
    assert_eq!(generator.patch(&patch), Ok(()));
    assert_eq!(generator.clone().code().chunk.opcodes[1], Opcode::Jp(0));
    assert!(generator.state.scopes[0].patches.is_empty());
    assert_eq!(generator.patch(&patch), Err(GenerationFault::UnknownPatch));
    // what is no jump is not patched
    let odd = generator.emit_patch(Opcode::Add);
    generator.write_opcode(Opcode::Null);
    assert_eq!(generator.patch(&odd), Err(GenerationFault::UnknownPatch));
    assert_eq!(generator.code().chunk.opcodes[2], Opcode::Add);
}

#[test]
fn each_kind_of_jump_keeps_its_kind() {
    let mut generator = BytecodeGenerator::new();
    let jif = generator.emit_patch(Opcode::Jif(0));
    let jp = generator.emit_patch(Opcode::Jp(0));
    let brk = generator.emit_patch(Opcode::Break(0));
    generator.patch(&brk).unwrap();
    generator.patch(&jp).unwrap();
    generator.patch(&jif).unwrap();
    assert_eq!(
        generator.code().chunk.opcodes,
        vec![Opcode::Jif(2), Opcode::Jp(1), Opcode::Break(0)]
    );
}

#[test]
fn chunks_know_whether_their_constants_are_there() {
    let mut chunk = Chunk::default();
    assert!(chunk.is_well_formed());
    assert_eq!(chunk.write_constant(Constant::Number(1)), 0);
    assert_eq!(chunk.write_opcode(Opcode::Constant(0)), 0);
    assert!(chunk.is_well_formed());
    assert_eq!(chunk.write_opcode(Opcode::Constant(1)), 1);
    assert!(!chunk.is_well_formed());
    assert_eq!(chunk.opcodes_len(), 2);
    assert_eq!(chunk.read_opcode(1), Opcode::Constant(1));
    assert_eq!(chunk.read_constant(0), Some(&Constant::Number(1)));
    assert_eq!(chunk.read_constant(1), None);
    chunk.replace_opcode(1, Opcode::Null);
    assert!(chunk.is_well_formed());
    let copy = chunk.clone();
    assert!(copy.same_as(&chunk));
    chunk.write_constant(Constant::MemoryAddress(MemoryAddress::Global("g".to_owned())));
    assert!(!copy.same_as(&chunk));
}

#[test]
fn only_a_function_that_was_opened_is_written_out() {
    let mut generator = BytecodeGenerator::new();
    generator.state.enter_scope(ScopeType::Function, 0);
    assert_eq!(generator.finish_function(), Err(GenerationFault::NoFunction));
    let mut generator = BytecodeGenerator::new();
    generator.open_function("f", 2);
    assert_eq!(generator.functions.len(), 2);
    assert_eq!(generator.state.scopes.len(), 2);
    generator.write_opcode(Opcode::Null);
    assert_eq!(generator.finish_function(), Ok(()));
    assert_eq!(generator.functions.len(), 1);
    assert_eq!(generator.state.scopes.len(), 1);
    assert_eq!(generator.finished.len(), 1);
    assert_eq!(generator.finished[0].name, "f");
    assert_eq!(generator.finished[0].arity, 2);
    assert_eq!(generator.finished[0].chunk.opcodes, vec![Opcode::Null, Opcode::Return]);
    assert_eq!(generator.code().chunk.opcodes, vec![Opcode::Closure(0)]);
}

#[test]
fn a_copy_of_a_generator_owns_the_same_patches() {
    let mut generator = BytecodeGenerator::new();
    let patch = generator.emit_patch(Opcode::Jp(0));
    generator.write_opcode(Opcode::Null);
    let mut copy = generator.clone();
    assert_eq!(copy.patch(&patch), Ok(()));
    assert_eq!(copy.code().chunk.opcodes[0], Opcode::Jp(1));
    // the patch of the first generator is still open
    assert_eq!(generator.state.leave_scope(), Err(GenerationFault::LeftGlobalScope));
    assert!(generator.state.scopes[0].patches.contains(&patch.index));
}
