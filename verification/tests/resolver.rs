use gravitas::bytecode::state::{GenerationFault, GeneratorState, Scope, ScopeType};
use gravitas::bytecode::{MemoryAddress, Patch, Upvalue, Variable};

fn slots(state: &GeneratorState, scope: usize) -> Vec<usize> {
    state.scopes[scope].variables.iter().map(|v| v.index).collect()
}

#[test]
fn a_state_starts_with_the_global_scope() {
    let state = GeneratorState::new();
    assert_eq!(state.scopes.len(), 1);
    assert_eq!(state.scopes[0].scope_type, ScopeType::Global);
    assert_eq!(state.depth(), 0);
    assert_eq!(state.declared(), 0);
    assert!(!state.is_in_closure());
    assert!(!state.did_return());
}

#[test]
fn a_scope_is_new_with_nothing_in_it() {
    let scope = Scope::new(ScopeType::Block, 3);
    assert_eq!(scope.scope_type, ScopeType::Block);
    assert_eq!(scope.starting_index, 3);
    assert!(scope.variables.is_empty());
    assert!(scope.upvalues.is_empty());
    assert!(scope.patches.is_empty());
    assert!(!scope.returned);
}

#[test]
fn block_variables_follow_those_of_their_frame() {
    let mut state = GeneratorState::new();
    state.declare_var("a".to_owned()).unwrap();
    state.declare_var("b".to_owned()).unwrap();
    state.enter_scope(ScopeType::Block, 2);
    state.declare_var("c".to_owned()).unwrap();
    state.enter_scope(ScopeType::Block, 3);
    state.declare_var("d".to_owned()).unwrap();
    state.declare_var("e".to_owned()).unwrap();
    assert_eq!(slots(&state, 0), vec![0, 1]);
    assert_eq!(slots(&state, 1), vec![2]);
    assert_eq!(slots(&state, 2), vec![3, 4]);
    assert_eq!(state.frame_size(), Some(5));
    // a function starts a frame of its own
    state.enter_scope(ScopeType::Function, 0);
    state.declare_var("p".to_owned()).unwrap();
    state.declare_var("q".to_owned()).unwrap();
    state.enter_scope(ScopeType::Block, 2);
    state.declare_var("r".to_owned()).unwrap();
    assert_eq!(slots(&state, 3), vec![0, 1]);
    assert_eq!(slots(&state, 4), vec![2]);
    assert_eq!(state.frame_size(), Some(3));
    assert_eq!(state.scopes[4].variables[0].depth, 1);
    assert_eq!(state.scopes[2].variables[0].depth, 0);
    // once the blocks are left, the frame goes on where it was
    state.leave_scope().unwrap();
    state.leave_scope().unwrap();
    state.leave_scope().unwrap();
    state.declare_var("f".to_owned()).unwrap();
    assert_eq!(slots(&state, 1), vec![2, 3]);
}

#[test]
fn depth_counts_what_is_no_block() {
    let mut state = GeneratorState::new();
    state.enter_scope(ScopeType::Block, 0);
    assert_eq!(state.depth(), 0);
    state.enter_scope(ScopeType::Function, 0);
    assert_eq!(state.depth(), 1);
    assert!(!state.is_in_closure());
    state.enter_scope(ScopeType::Block, 0);
    state.enter_scope(ScopeType::Function, 0);
    state.enter_scope(ScopeType::Block, 0);
    assert_eq!(state.depth(), 2);
    assert!(state.is_in_closure());
    state.enter_scope(ScopeType::Class, 0);
    assert_eq!(state.depth(), 3);
    assert!(!state.is_in_closure());
}

#[test]
fn the_outermost_scope_stays() {
    let mut state = GeneratorState::new();
    assert_eq!(state.leave_scope(), Err(GenerationFault::LeftGlobalScope));
    assert_eq!(state.scopes.len(), 1);
    state.enter_scope(ScopeType::Block, 0);
    state.declare_var("x".to_owned()).unwrap();
    let left = state.leave_scope().unwrap();
    assert_eq!(left.scope_type, ScopeType::Block);
    assert_eq!(left.variables.len(), 1);
    assert_eq!(state.scopes.len(), 1);
}

#[test]
fn a_scope_with_an_open_patch_is_not_left() {
    let mut state = GeneratorState::new();
    state.enter_scope(ScopeType::Block, 0);
    state.add_patch(Patch { index: 4 });
    assert_eq!(state.leave_scope(), Err(GenerationFault::UnresolvedPatch));
    assert_eq!(state.scopes.len(), 2);
    assert!(!state.remove_patch(&Patch { index: 5 }));
    assert!(state.remove_patch(&Patch { index: 4 }));
    assert!(state.leave_scope().is_ok());
}

#[test]
fn the_innermost_scope_is_searched_for_locals() {
    let mut state = GeneratorState::new();
    state.declare_var("x".to_owned()).unwrap();
    state.enter_scope(ScopeType::Block, 1);
    state.declare_var("y".to_owned()).unwrap();
    state.declare_var("y".to_owned()).unwrap();
    assert_eq!(state.search_local_var("x"), None);
    assert_eq!(
        state.search_local_var("y"),
        Some(Variable { name: "y".to_owned(), depth: 0, index: 1, upvalue_index: None })
    );
    assert_eq!(state.find_var_address("y"), Ok(MemoryAddress::Local(1)));
    assert_eq!(state.current_scope().variables.len(), 2);
    assert_eq!(state.declared(), 2);
    state.set_returned();
    assert!(state.did_return());
    state.current_scope_mut().returned = false;
    assert!(!state.did_return());
}

#[test]
fn a_name_of_the_same_frame_is_reached_without_a_link() {
    let mut state = GeneratorState::new();
    state.declare_var("a".to_owned()).unwrap();
    state.declare_var("x".to_owned()).unwrap();
    state.enter_scope(ScopeType::Block, 2);
    state.enter_scope(ScopeType::Block, 2);
    assert_eq!(
        state.find_var_address("x"),
        Ok(MemoryAddress::Upvalue { index: 1, is_ref: false })
    );
    assert!(state.scopes.iter().all(|scope| scope.upvalues.is_empty()));
    // the variable is marked as reached
    assert_eq!(state.scopes[0].variables[1].upvalue_index, Some(1));
    assert_eq!(state.scopes[0].variables[0].upvalue_index, None);
}

#[test]
fn a_chain_has_a_link_for_each_function_between() {
    let mut state = GeneratorState::new();
    state.enter_scope(ScopeType::Function, 0); // F
    state.declare_var("p".to_owned()).unwrap();
    state.declare_var("x".to_owned()).unwrap();
    state.enter_scope(ScopeType::Block, 2);
    state.enter_scope(ScopeType::Function, 0); // first function inside F
    state.enter_scope(ScopeType::Block, 0);
    state.enter_scope(ScopeType::Block, 0);
    state.enter_scope(ScopeType::Function, 0); // second
    state.enter_scope(ScopeType::Function, 0); // third
    let found = state.search_upvalue_var("x").unwrap();
    let link = |upvalue_index, is_local, local_index| Upvalue {
        upvalue_index,
        is_local,
        is_ref: true,
        local_index,
        name: "x".to_owned(),
    };
    // three functions inside F: three links, the outermost takes the slot
    assert_eq!(state.scopes[3].upvalues, vec![link(0, true, 1)]);
    assert_eq!(state.scopes[6].upvalues, vec![link(0, false, 0)]);
    assert_eq!(state.scopes[7].upvalues, vec![link(0, false, 0)]);
    assert_eq!(found, link(0, false, 0));
    // the blocks and the scopes around the declaration have none
    for scope in [0, 1, 2, 4, 5] {
        assert!(state.scopes[scope].upvalues.is_empty());
    }
    assert_eq!(state.scopes[1].variables[1].upvalue_index, Some(1));
    // the link is found again, no new one is made
    assert_eq!(state.search_upvalue_var("x").unwrap(), link(0, false, 0));
    assert_eq!(state.scopes[7].upvalues.len(), 1);
    assert_eq!(state.scope_upvalues(), vec![&link(0, false, 0)]);
    assert_eq!(
        state.find_var_address("x"),
        Ok(MemoryAddress::Upvalue { index: 0, is_ref: true })
    );
    // a second name gets the next places
    let second = state.search_upvalue_var("p").unwrap();
    assert_eq!(second.upvalue_index, 1);
    assert_eq!(second.local_index, 1);
    assert_eq!(state.scopes[3].upvalues[1].local_index, 0);
    assert!(state.scopes[3].upvalues[1].is_local);
    assert!(!state.scopes[6].upvalues[1].is_local);
}

#[test]
fn a_name_that_only_a_block_declares_is_not_reached() {
    let mut state = GeneratorState::new();
    state.enter_scope(ScopeType::Block, 0);
    state.declare_var("x".to_owned()).unwrap();
    state.enter_scope(ScopeType::Function, 0);
    let before = state.clone();
    assert_eq!(state.search_upvalue_var("x"), Err(GenerationFault::UndeclaredName));
    assert_eq!(state.find_var_address("y"), Err(GenerationFault::UndeclaredName));
    assert_eq!(state.scopes, before.scopes);
}

#[test]
fn a_scope_closes_and_links_its_own() {
    let mut scope = Scope::new(ScopeType::Function, 0);
    assert_eq!(scope.close_variable(0), Err(GenerationFault::NoSuchVariable));
    scope.variables.push(Variable {
        name: "x".to_owned(),
        depth: 1,
        index: 4,
        upvalue_index: None,
    });
    assert_eq!(
        scope.close_variable(0),
        Ok(Upvalue {
            upvalue_index: 4,
            is_local: true,
            is_ref: false,
            local_index: 4,
            name: "x".to_owned()
        })
    );
    assert_eq!(scope.variables[0].upvalue_index, Some(4));
    let first = scope.make_enclosed_upvalue(7, true, "y".to_owned());
    let second = scope.make_enclosed_upvalue(9, false, "z".to_owned());
    assert_eq!(first.upvalue_index, 0);
    assert_eq!(second.upvalue_index, 1);
    assert_eq!(second.local_index, 9);
    assert!(second.is_ref && !second.is_local);
    assert_eq!(scope.upvalues, vec![first, second]);
}
