//! The scope resolver: which scopes are open, what they declare, and where
//! a name lives.
use std::collections::HashSet;
use vstd::prelude::*;
use crate::bytecode::{
    MemoryAddress, MemoryAddressView, Patch, Upvalue, UpvalueView, Variable, VariableView,
};
use crate::bytecode::callables::Class;
use crate::common::{lemma_views_push, lemma_views_update, str_eq, views, ProgramText};

verus! {

broadcast use vstd::std_specs::hash::group_hash_axioms;

/// Kind of a lexical region.
#[derive(Debug, Clone, Copy, PartialEq, Eq, Structural)]
pub enum ScopeType {
    Function,
    Block,
    Global,
    Class,
}

/// A defect of an earlier stage, found while generating. None of these is
/// an error of the program that is being compiled.
#[derive(Debug, Clone, Copy, PartialEq, Eq, Structural)]
pub enum GenerationFault {
    /// A name was used that no open function or global scope declares.
    UndeclaredName,
    /// A scope was asked for a variable that it does not hold.
    NoSuchVariable,
    /// A scope was left while it still owned an open patch.
    UnresolvedPatch,
    /// The outermost scope was asked to close.
    LeftGlobalScope,
    /// A patch was resolved that its scope does not own, or that does not
    /// name a jump.
    UnknownPatch,
    /// A jump would be longer than the machine can express.
    JumpTooLong,
    /// A frame would hold more variables than can be counted.
    TooManyVariables,
    /// A function was to be closed while none but the top-level code was
    /// being written.
    NoFunction,
}

/// One open lexical region.
#[derive(Debug, PartialEq)]
pub struct Scope {
    pub scope_type: ScopeType,
    pub variables: Vec<Variable>,
    pub returned: bool,
    /// Positions of the jumps that are still open.
    pub patches: HashSet<usize>,
    pub starting_index: usize,
    pub upvalues: Vec<Upvalue>,
}

/// Mathematical value of a [`Scope`].
pub struct ScopeView {
    pub scope_type: ScopeType,
    pub variables: Seq<VariableView>,
    pub returned: bool,
    pub patches: Set<usize>,
    pub starting_index: usize,
    pub upvalues: Seq<UpvalueView>,
}

/// Position of the first variable called `name`.
pub open spec fn first_variable(variables: Seq<VariableView>, name: Seq<char>) -> Option<int>
    decreases variables.len(),
{
    if variables.len() == 0 {
        None
    } else {
        match first_variable(variables.drop_last(), name) {
            Some(i) => Some(i),
            None => if variables.last().name == name {
                Some(variables.len() - 1)
            } else {
                None
            },
        }
    }
}

/// Position of the first upvalue called `name`.
pub open spec fn first_upvalue(upvalues: Seq<UpvalueView>, name: Seq<char>) -> Option<int>
    decreases upvalues.len(),
{
    if upvalues.len() == 0 {
        None
    } else {
        match first_upvalue(upvalues.drop_last(), name) {
            Some(i) => Some(i),
            None => if upvalues.last().name == name {
                Some(upvalues.len() - 1)
            } else {
                None
            },
        }
    }
}

/// What `first_variable` finds: the least position that holds the name.
pub proof fn lemma_first_variable(variables: Seq<VariableView>, name: Seq<char>)
    ensures
        match first_variable(variables, name) {
            Some(i) => 0 <= i < variables.len() && variables[i].name == name && forall|j: int|
                0 <= j < i ==> variables[j].name != name,
            None => forall|j: int| 0 <= j < variables.len() ==> variables[j].name != name,
        },
    decreases variables.len(),
{
    if variables.len() > 0 {
        let prefix = variables.drop_last();
        lemma_first_variable(prefix, name);
        assert(forall|j: int| 0 <= j < prefix.len() ==> prefix[j] == variables[j]);
        if first_variable(prefix, name) is None {
            assert forall|j: int| 0 <= j < prefix.len() implies variables[j].name != name by {
                assert(prefix[j].name != name);
            }
        }
    }
}

/// What `first_upvalue` finds: the least position that holds the name.
pub proof fn lemma_first_upvalue(upvalues: Seq<UpvalueView>, name: Seq<char>)
    ensures
        match first_upvalue(upvalues, name) {
            Some(i) => 0 <= i < upvalues.len() && upvalues[i].name == name && forall|j: int|
                0 <= j < i ==> upvalues[j].name != name,
            None => forall|j: int| 0 <= j < upvalues.len() ==> upvalues[j].name != name,
        },
    decreases upvalues.len(),
{
    if upvalues.len() > 0 {
        let prefix = upvalues.drop_last();
        lemma_first_upvalue(prefix, name);
        assert(forall|j: int| 0 <= j < prefix.len() ==> prefix[j] == upvalues[j]);
        if first_upvalue(prefix, name) is None {
            assert forall|j: int| 0 <= j < prefix.len() implies upvalues[j].name != name by {
                assert(prefix[j].name != name);
            }
        }
    }
}

proof fn lemma_first_variable_found(variables: Seq<VariableView>, name: Seq<char>, i: int)
    requires
        0 <= i < variables.len(),
        variables[i].name == name,
        forall|j: int| 0 <= j < i ==> variables[j].name != name,
    ensures
        first_variable(variables, name) == Some(i),
{
    lemma_first_variable(variables, name);
}

proof fn lemma_first_upvalue_found(upvalues: Seq<UpvalueView>, name: Seq<char>, i: int)
    requires
        0 <= i < upvalues.len(),
        upvalues[i].name == name,
        forall|j: int| 0 <= j < i ==> upvalues[j].name != name,
    ensures
        first_upvalue(upvalues, name) == Some(i),
{
    lemma_first_upvalue(upvalues, name);
}

impl ScopeView {
    /// A scope that was just entered.
    pub open spec fn fresh(scope_type: ScopeType, starting_index: usize) -> ScopeView {
        ScopeView {
            scope_type,
            variables: Seq::empty(),
            returned: false,
            patches: Set::empty(),
            starting_index,
            upvalues: Seq::empty(),
        }
    }

    pub open spec fn is_block(self) -> bool {
        self.scope_type == ScopeType::Block
    }

    /// A function or the global scope: where a frame's slots start over.
    pub open spec fn starts_frame(self) -> bool {
        self.scope_type == ScopeType::Function || self.scope_type == ScopeType::Global
    }

    /// The scope with one more variable.
    pub open spec fn declare(self, variable: VariableView) -> ScopeView {
        ScopeView { variables: self.variables.push(variable), ..self }
    }

    /// The scope with one more link.
    pub open spec fn capture(self, link: UpvalueView) -> ScopeView {
        ScopeView { upvalues: self.upvalues.push(link), ..self }
    }

    /// The link that the scope makes to what `enclosing_index` names.
    pub open spec fn link(
        self,
        enclosing_index: usize,
        is_local: bool,
        name: Seq<char>,
    ) -> UpvalueView {
        UpvalueView {
            upvalue_index: self.upvalues.len() as usize,
            is_local,
            is_ref: true,
            local_index: enclosing_index,
            name,
        }
    }

    /// How the scope describes its variable at `index` to a scope that
    /// reaches for it.
    pub open spec fn closed(self, index: int) -> UpvalueView {
        UpvalueView {
            upvalue_index: self.variables[index].index,
            is_local: true,
            is_ref: false,
            local_index: self.variables[index].index,
            name: self.variables[index].name,
        }
    }

    /// The scope once its variable at `index` has been reached for.
    pub open spec fn close(self, index: int) -> ScopeView {
        ScopeView {
            variables: self.variables.update(
                index,
                VariableView {
                    upvalue_index: Some(self.variables[index].index),
                    ..self.variables[index]
                },
            ),
            ..self
        }
    }
}

impl View for Scope {
    type V = ScopeView;

    open spec fn view(&self) -> ScopeView {
        ScopeView {
            scope_type: self.scope_type,
            variables: views(self.variables@),
            returned: self.returned,
            patches: self.patches@,
            starting_index: self.starting_index,
            upvalues: views(self.upvalues@),
        }
    }
}

/// Copies a set of patch positions with `HashSet::clone`: the copy holds
/// the same positions.
#[verifier::external_body]
fn clone_patches(patches: &HashSet<usize>) -> (copy: HashSet<usize>)
    ensures
        copy@ == patches@,
{
    patches.clone()
}

impl Clone for Scope {
    fn clone(&self) -> (copy: Self)
        ensures
            copy@ == self@,
    {
        let mut variables: Vec<Variable> = Vec::new();
        let mut i: usize = 0;
        while i < self.variables.len()
            invariant
                i <= self.variables@.len(),
                variables@ == self.variables@.take(i as int),
            decreases self.variables@.len() - i,
        {
            variables.push(self.variables[i].clone());
            i += 1;
        }
        let mut upvalues: Vec<Upvalue> = Vec::new();
        let mut j: usize = 0;
        while j < self.upvalues.len()
            invariant
                j <= self.upvalues@.len(),
                upvalues@ == self.upvalues@.take(j as int),
            decreases self.upvalues@.len() - j,
        {
            upvalues.push(self.upvalues[j].clone());
            j += 1;
        }
        proof {
            assert(variables@ =~= self.variables@);
            assert(upvalues@ =~= self.upvalues@);
        }
        Scope {
            scope_type: self.scope_type,
            variables,
            returned: self.returned,
            patches: clone_patches(&self.patches),
            starting_index: self.starting_index,
            upvalues,
        }
    }
}

impl Scope {
    /// A scope of the given kind with nothing declared in it.
    pub fn new(scope_type: ScopeType, starting_index: usize) -> (scope: Self)
        ensures
            scope@ == ScopeView::fresh(scope_type, starting_index),
    {
        let scope = Scope {
            scope_type,
            variables: Vec::new(),
            patches: HashSet::new(),
            returned: false,
            starting_index,
            upvalues: Vec::new(),
        };
        proof {
            assert(scope@.variables =~= Seq::empty());
            assert(scope@.upvalues =~= Seq::empty());
            assert(scope@.patches =~= Set::empty());
        }
        scope
    }

    /// Adds to the scope a link to what `enclosing_index` names in the
    /// enclosing function (a slot if `is_local`, else a link), and returns
    /// the link.
    pub fn make_enclosed_upvalue(
        &mut self,
        enclosing_index: usize,
        is_local: bool,
        name: ProgramText,
    ) -> (upvalue: Upvalue)
        ensures
            upvalue@ == old(self)@.link(enclosing_index, is_local, name@),
            final(self)@ == old(self)@.capture(upvalue@),
    {
        let upvalue = Upvalue {
            upvalue_index: self.upvalues.len(),
            is_local,
            is_ref: true,
            local_index: enclosing_index,
            name,
        };
        proof {
            lemma_views_push(self.upvalues@, upvalue);
        }
        let copy = upvalue.clone();
        self.upvalues.push(upvalue);
        copy
    }

    /// Marks the variable at `index` as reached from an inner scope and
    /// describes it as the first upvalue of a chain. Fails, and changes
    /// nothing, exactly when the scope holds no variable at `index`.
    pub fn close_variable(&mut self, index: usize) -> (result: Result<Upvalue, GenerationFault>)
        ensures
            index < old(self)@.variables.len() ==> (result matches Ok(upvalue)
                && upvalue@ == old(self)@.closed(index as int))
                && final(self)@ == old(self)@.close(index as int),
            index >= old(self)@.variables.len() ==> result == Err::<Upvalue, GenerationFault>(
                GenerationFault::NoSuchVariable,
            ) && final(self)@ == old(self)@,
    {
        if index >= self.variables.len() {
            return Err(GenerationFault::NoSuchVariable);
        }
        let slot = self.variables[index].index;
        let upvalue = Upvalue {
            local_index: slot,
            upvalue_index: slot,
            is_local: true,
            is_ref: false,
            name: self.variables[index].name.clone(),
        };
        let ghost before = self.variables@;
        self.variables[index].upvalue_index = Some(slot);
        proof {
            lemma_views_update(before, index as int, self.variables@[index as int]);
            assert(self.variables@ =~= before.update(index as int, self.variables@[index as int]));
        }
        Ok(upvalue)
    }
}

/// Position and a copy of the first variable of `scope` called `name`.
pub fn search_var(scope: &Scope, name: &str) -> (found: Option<(Variable, usize)>)
    ensures
        match first_variable(scope@.variables, name@) {
            Some(i) => found matches Some((variable, index)) && index == i && variable@
                == scope@.variables[i],
            None => found is None,
        },
{
    let mut index: usize = 0;
    while index < scope.variables.len()
        invariant
            index <= scope.variables@.len(),
            forall|j: int| 0 <= j < index ==> scope@.variables[j].name != name@,
        decreases scope.variables@.len() - index,
    {
        if str_eq(scope.variables[index].name.as_str(), name) {
            proof {
                lemma_first_variable_found(scope@.variables, name@, index as int);
            }
            return Some((scope.variables[index].clone(), index));
        }
        index += 1;
    }
    proof {
        lemma_first_variable(scope@.variables, name@);
    }
    None
}

/// Number of scopes that are not blocks.
pub open spec fn non_block_count(scopes: Seq<ScopeView>) -> nat
    decreases scopes.len(),
{
    if scopes.len() == 0 {
        0
    } else {
        non_block_count(scopes.drop_last()) + if scopes.last().is_block() {
            0nat
        } else {
            1nat
        }
    }
}

/// Position of the innermost scope that is not a block.
pub open spec fn innermost_non_block(scopes: Seq<ScopeView>) -> Option<int>
    decreases scopes.len(),
{
    if scopes.len() == 0 {
        None
    } else if !scopes.last().is_block() {
        Some(scopes.len() - 1)
    } else {
        innermost_non_block(scopes.drop_last())
    }
}

/// The innermost scope that is not a block is a function, and so is the
/// next such scope around it.
pub open spec fn in_closure(scopes: Seq<ScopeView>) -> bool {
    match innermost_non_block(scopes) {
        Some(i) => scopes[i].scope_type == ScopeType::Function && match innermost_non_block(
            scopes.take(i),
        ) {
            Some(j) => scopes[j].scope_type == ScopeType::Function,
            None => false,
        },
        None => false,
    }
}

/// Number of variables in the frame that the innermost scope belongs to:
/// those of the scopes from the innermost outwards, up to and with the
/// nearest function or global scope.
pub open spec fn frame_count(scopes: Seq<ScopeView>) -> nat
    decreases scopes.len(),
{
    if scopes.len() == 0 {
        0
    } else {
        scopes.last().variables.len() + if scopes.last().starts_frame() {
            0nat
        } else {
            frame_count(scopes.drop_last())
        }
    }
}

/// The slot that the next declaration in the innermost scope gets.
pub open spec fn next_slot(scopes: Seq<ScopeView>) -> nat
    recommends
        scopes.len() > 0,
{
    if scopes.last().scope_type == ScopeType::Function {
        scopes.last().variables.len()
    } else {
        scopes.last().variables.len() + frame_count(scopes.drop_last())
    }
}

/// The scopes after `name` was declared in the innermost one, at the next
/// slot of its frame; a fault if that slot cannot be counted.
pub open spec fn declare_variable(scopes: Seq<ScopeView>, name: Seq<char>) -> Result<
    Seq<ScopeView>,
    GenerationFault,
>
    recommends
        scopes.len() > 0,
{
    if next_slot(scopes) > usize::MAX {
        Err(GenerationFault::TooManyVariables)
    } else {
        Ok(
            scopes.update(
                scopes.len() - 1,
                scopes.last().declare(
                    VariableView {
                        name,
                        depth: (non_block_count(scopes) - 1) as usize,
                        index: next_slot(scopes) as usize,
                        upvalue_index: None,
                    },
                ),
            ),
        )
    }
}

/// The scopes after the innermost one was left, and that scope; a fault
/// if it is the outermost scope or still owns an open patch.
pub open spec fn leave(scopes: Seq<ScopeView>) -> Result<
    (Seq<ScopeView>, ScopeView),
    GenerationFault,
>
    recommends
        scopes.len() > 0,
{
    if scopes.len() == 1 {
        Err(GenerationFault::LeftGlobalScope)
    } else if scopes.last().patches.len() > 0 {
        Err(GenerationFault::UnresolvedPatch)
    } else {
        Ok((scopes.drop_last(), scopes.last()))
    }
}

/// Position of the innermost scope, blocks left out, that declares `name`.
pub open spec fn declaring_scope(scopes: Seq<ScopeView>, name: Seq<char>) -> Option<int>
    decreases scopes.len(),
{
    if scopes.len() == 0 {
        None
    } else if !scopes.last().is_block() && first_variable(scopes.last().variables, name) is Some {
        Some(scopes.len() - 1)
    } else {
        declaring_scope(scopes.drop_last(), name)
    }
}

/// The scopes once each scope from `from` on that is not a block has made
/// its link: the first of them to the slot or link `back` (to a slot if
/// `first`), each later one to the link before it.
pub open spec fn with_links(
    scopes: Seq<ScopeView>,
    from: int,
    back: usize,
    first: bool,
    name: Seq<char>,
) -> Seq<ScopeView>
    decreases scopes.len() - from,
{
    if from < 0 || from >= scopes.len() {
        scopes
    } else if scopes[from].is_block() {
        with_links(scopes, from + 1, back, first, name)
    } else {
        let link = scopes[from].link(back, first, name);
        with_links(
            scopes.update(from, scopes[from].capture(link)),
            from + 1,
            link.upvalue_index,
            false,
            name,
        )
    }
}

/// The links that `with_links` makes, the outermost first.
pub open spec fn chain(
    scopes: Seq<ScopeView>,
    from: int,
    back: usize,
    first: bool,
    name: Seq<char>,
) -> Seq<UpvalueView>
    decreases scopes.len() - from,
{
    if from < 0 || from >= scopes.len() {
        Seq::empty()
    } else if scopes[from].is_block() {
        chain(scopes, from + 1, back, first, name)
    } else {
        let link = scopes[from].link(back, first, name);
        seq![link] + chain(
            scopes.update(from, scopes[from].capture(link)),
            from + 1,
            link.upvalue_index,
            false,
            name,
        )
    }
}

/// What the search for an upvalue called `name` leaves and finds. A link of
/// that name in the innermost scope is found again and nothing changes.
/// Otherwise the innermost scope, blocks left out, that declares the name
/// has its variable closed, and every scope within it that is not a block
/// gets a link; found is the innermost link, or the description of the
/// variable if there was no scope to link.
pub open spec fn resolve_upvalue(scopes: Seq<ScopeView>, name: Seq<char>) -> Result<
    (Seq<ScopeView>, UpvalueView),
    GenerationFault,
>
    recommends
        scopes.len() > 0,
{
    match first_upvalue(scopes.last().upvalues, name) {
        Some(i) => Ok((scopes, scopes.last().upvalues[i])),
        None => match declaring_scope(scopes, name) {
            None => Err(GenerationFault::UndeclaredName),
            Some(d) => {
                let v = first_variable(scopes[d].variables, name).unwrap();
                let described = scopes[d].closed(v);
                let closed = scopes.update(d, scopes[d].close(v));
                let links = chain(closed, d + 1, described.local_index, true, name);
                Ok(
                    (
                        with_links(closed, d + 1, described.local_index, true, name),
                        if links.len() == 0 {
                            described
                        } else {
                            links.last()
                        },
                    ),
                )
            },
        },
    }
}

/// The address that `name` resolves to, and the scopes after resolving.
pub open spec fn resolve_address(scopes: Seq<ScopeView>, name: Seq<char>) -> Result<
    (Seq<ScopeView>, MemoryAddressView),
    GenerationFault,
>
    recommends
        scopes.len() > 0,
{
    match first_variable(scopes.last().variables, name) {
        Some(i) => Ok((scopes, MemoryAddressView::Local(scopes.last().variables[i].index))),
        None => match resolve_upvalue(scopes, name) {
            Ok((after, upvalue)) => Ok(
                (
                    after,
                    MemoryAddressView::Upvalue {
                        index: upvalue.upvalue_index,
                        is_ref: upvalue.is_ref,
                    },
                ),
            ),
            Err(fault) => Err(fault),
        },
    }
}

/// Slot at which the innermost scope's own variables start.
pub open spec fn slot_base(scopes: Seq<ScopeView>) -> nat
    recommends
        scopes.len() > 0,
{
    if scopes.last().scope_type == ScopeType::Function {
        0
    } else {
        frame_count(scopes.drop_last())
    }
}

/// Every variable sits at the slot that follows the variables declared
/// before it in its frame.
pub open spec fn slots_in_order(scopes: Seq<ScopeView>) -> bool {
    forall|k: int, p: int|
        0 <= k < scopes.len() && 0 <= p < scopes[k].variables.len() ==> (
        #[trigger] scopes[k].variables[p]).index == slot_base(scopes.take(k + 1)) + p
}

/// Stack contiguity, the count: the slot that the next declaration gets is
/// the number of variables that the frame's scopes hold, the function's own
/// and those of its blocks. A global scope opened inside other scopes is
/// left out: it starts a frame and still counts on from the scopes around
/// it.
pub proof fn lemma_next_slot_is_frame_count(scopes: Seq<ScopeView>)
    requires
        scopes.len() > 0,
        scopes.last().scope_type == ScopeType::Global ==> scopes.len() == 1,
    ensures
        next_slot(scopes) == frame_count(scopes),
{
    if scopes.len() == 1 {
        assert(scopes.drop_last().len() == 0);
    }
}

/// Stack contiguity, the slots: a declaration at the next slot keeps every
/// variable at the slot that follows those before it.
pub proof fn lemma_declare_keeps_slots_in_order(scopes: Seq<ScopeView>, variable: VariableView)
    requires
        scopes.len() > 0,
        slots_in_order(scopes),
        variable.index == next_slot(scopes),
    ensures
        slots_in_order(scopes.update(scopes.len() - 1, scopes.last().declare(variable))),
{
    let last = scopes.len() - 1;
    let after = scopes.update(last, scopes.last().declare(variable));
    assert forall|k: int, p: int|
        0 <= k < after.len() && 0 <= p < after[k].variables.len() implies (
    #[trigger] after[k].variables[p]).index == slot_base(after.take(k + 1)) + p by {
        if k < last {
            assert(after.take(k + 1) =~= scopes.take(k + 1));
            assert(after[k].variables[p] == scopes[k].variables[p]);
        } else {
            assert(after.take(k + 1) =~= after);
            assert(scopes.take(k + 1) =~= scopes);
            assert(after.drop_last() =~= scopes.drop_last());
            if p < scopes[k].variables.len() {
                assert(after[k].variables[p] == scopes[k].variables[p]);
            }
        }
    }
}

/// Entering a scope keeps the slots in order.
pub proof fn lemma_enter_keeps_slots_in_order(scopes: Seq<ScopeView>, scope: ScopeView)
    requires
        slots_in_order(scopes),
        scope.variables.len() == 0,
    ensures
        slots_in_order(scopes.push(scope)),
{
    let after = scopes.push(scope);
    assert forall|k: int, p: int|
        0 <= k < after.len() && 0 <= p < after[k].variables.len() implies (
    #[trigger] after[k].variables[p]).index == slot_base(after.take(k + 1)) + p by {
        assert(after.take(k + 1) =~= scopes.take(k + 1));
        assert(after[k].variables[p] == scopes[k].variables[p]);
    }
}

/// Leaving a scope keeps the slots in order.
pub proof fn lemma_leave_keeps_slots_in_order(scopes: Seq<ScopeView>)
    requires
        scopes.len() > 0,
        slots_in_order(scopes),
    ensures
        slots_in_order(scopes.drop_last()),
{
    let after = scopes.drop_last();
    assert forall|k: int, p: int|
        0 <= k < after.len() && 0 <= p < after[k].variables.len() implies (
    #[trigger] after[k].variables[p]).index == slot_base(after.take(k + 1)) + p by {
        assert(after.take(k + 1) =~= scopes.take(k + 1));
        assert(after[k].variables[p] == scopes[k].variables[p]);
    }
}

/// Two lists of scopes have the same scopes as far as slots go: the kinds
/// of the scopes, and the slots of their variables.
pub open spec fn same_slots(a: Seq<ScopeView>, b: Seq<ScopeView>) -> bool {
    &&& a.len() == b.len()
    &&& forall|i: int|
        0 <= i < a.len() ==> (#[trigger] a[i]).scope_type == b[i].scope_type
            && a[i].variables.len() == b[i].variables.len()
    &&& forall|i: int, p: int|
        0 <= i < a.len() && 0 <= p < a[i].variables.len() ==> (#[trigger] a[i].variables[p]).index
            == b[i].variables[p].index
}

/// The number of variables in a frame depends on the kinds of the scopes
/// and the numbers of their variables alone.
pub proof fn lemma_frame_count_by_shape(a: Seq<ScopeView>, b: Seq<ScopeView>)
    requires
        a.len() == b.len(),
        forall|i: int|
            0 <= i < a.len() ==> (#[trigger] a[i]).scope_type == b[i].scope_type
                && a[i].variables.len() == b[i].variables.len(),
    ensures
        frame_count(a) == frame_count(b),
    decreases a.len(),
{
    if a.len() > 0 {
        assert(a.last().scope_type == b.last().scope_type);
        assert(a.last().variables.len() == b.last().variables.len());
        assert forall|i: int| 0 <= i < a.drop_last().len() implies (
        #[trigger] a.drop_last()[i]).scope_type == b.drop_last()[i].scope_type
            && a.drop_last()[i].variables.len() == b.drop_last()[i].variables.len() by {
            assert(a[i].scope_type == b[i].scope_type);
        }
        lemma_frame_count_by_shape(a.drop_last(), b.drop_last());
    }
}

/// Whether the slots are in order depends on the kinds of the scopes and
/// the slots of their variables alone.
pub proof fn lemma_slots_by_shape(a: Seq<ScopeView>, b: Seq<ScopeView>)
    requires
        same_slots(a, b),
        slots_in_order(a),
    ensures
        slots_in_order(b),
{
    assert forall|k: int, p: int|
        0 <= k < b.len() && 0 <= p < b[k].variables.len() implies (
    #[trigger] b[k].variables[p]).index == slot_base(b.take(k + 1)) + p by {
        assert(a[k].variables[p].index == b[k].variables[p].index);
        assert(a[k].scope_type == b[k].scope_type);
        let x = a.take(k + 1).drop_last();
        let y = b.take(k + 1).drop_last();
        assert forall|i: int| 0 <= i < x.len() implies (#[trigger] x[i]).scope_type
            == y[i].scope_type && x[i].variables.len() == y[i].variables.len() by {
            assert(a[i].scope_type == b[i].scope_type);
        }
        lemma_frame_count_by_shape(x, y);
    }
}

/// The number of scopes that are not blocks depends on the kinds of the
/// scopes alone.
pub proof fn lemma_non_block_count_by_kind(a: Seq<ScopeView>, b: Seq<ScopeView>)
    requires
        a.len() == b.len(),
        forall|i: int| 0 <= i < a.len() ==> a[i].scope_type == b[i].scope_type,
    ensures
        non_block_count(a) == non_block_count(b),
    decreases a.len(),
{
    if a.len() > 0 {
        lemma_non_block_count_by_kind(a.drop_last(), b.drop_last());
    }
}

/// Closure chains: the links made for the scopes from `from` on are as many
/// as those scopes that are not blocks; only the outermost link takes a
/// slot, and each later link refers to the one before it.
pub proof fn lemma_capture_chain(
    scopes: Seq<ScopeView>,
    from: int,
    back: usize,
    first: bool,
    name: Seq<char>,
)
    requires
        0 <= from <= scopes.len(),
    ensures
        chain(scopes, from, back, first, name).len() == non_block_count(scopes) - non_block_count(
            scopes.take(from),
        ),
        forall|i: int|
            0 <= i < chain(scopes, from, back, first, name).len() ==> {
                let link = #[trigger] chain(scopes, from, back, first, name)[i];
                &&& link.is_local == (first && i == 0)
                &&& link.is_ref
                &&& link.name == name
                &&& link.local_index == if i == 0 {
                    back
                } else {
                    chain(scopes, from, back, first, name)[i - 1].upvalue_index
                }
            },
    decreases scopes.len() - from,
{
    if from >= scopes.len() {
        assert(scopes.take(from) =~= scopes);
    } else {
        assert(scopes.take(from + 1).drop_last() =~= scopes.take(from));
        assert(scopes.take(from + 1).last() == scopes[from]);
        if scopes[from].is_block() {
            lemma_capture_chain(scopes, from + 1, back, first, name);
        } else {
            let link = scopes[from].link(back, first, name);
            let next = scopes.update(from, scopes[from].capture(link));
            let rest = chain(next, from + 1, link.upvalue_index, false, name);
            lemma_capture_chain(next, from + 1, link.upvalue_index, false, name);
            lemma_non_block_count_by_kind(scopes, next);
            lemma_non_block_count_by_kind(scopes.take(from + 1), next.take(from + 1));
            let links = chain(scopes, from, back, first, name);
            assert(links == seq![link] + rest);
            assert forall|i: int| 0 <= i < links.len() implies {
                let l = #[trigger] links[i];
                &&& l.is_local == (first && i == 0)
                &&& l.is_ref
                &&& l.name == name
                &&& l.local_index == if i == 0 {
                    back
                } else {
                    links[i - 1].upvalue_index
                }
            } by {
                if i > 0 {
                    assert(links[i] == rest[i - 1]);
                    if i > 1 {
                        assert(links[i - 1] == rest[i - 2]);
                    }
                }
            }
        }
    }
}

/// The place of the scope at `j` among the scopes from `from` on that are
/// not blocks.
pub open spec fn place(scopes: Seq<ScopeView>, from: int, j: int) -> int {
    non_block_count(scopes.take(j)) - non_block_count(scopes.take(from))
}

/// The place of a scope counts one more from a scope that is no block than
/// from the scope behind it, whatever the scopes hold.
pub proof fn lemma_place(scopes: Seq<ScopeView>, next: Seq<ScopeView>, from: int, j: int)
    requires
        0 <= from < j < scopes.len(),
        next.len() == scopes.len(),
        forall|i: int| 0 <= i < scopes.len() ==> scopes[i].scope_type == next[i].scope_type,
        !scopes[from].is_block(),
        !scopes[j].is_block(),
    ensures
        place(scopes, from, j) == place(next, from + 1, j) + 1,
        0 <= place(next, from + 1, j) < non_block_count(next) - non_block_count(
            next.take(from + 1),
        ),
{
    lemma_non_block_count_by_kind(scopes.take(j), next.take(j));
    lemma_non_block_count_by_kind(scopes.take(from + 1), next.take(from + 1));
    assert(scopes.take(from + 1).drop_last() =~= scopes.take(from));
    lemma_non_block_count_grows(next, from + 1, j);
    assert(next.take(j + 1).drop_last() =~= next.take(j));
    lemma_non_block_count_grows(next, j + 1, next.len() as int);
    assert(next.take(next.len() as int) =~= next);
}

/// Closure chains, in the scopes: after the links are made, each scope from
/// `from` on that is not a block has one link more, the link of the chain
/// that its place among those scopes gives; every other scope is as it was.
#[verifier::spinoff_prover]
pub proof fn lemma_links_in_scopes(
    scopes: Seq<ScopeView>,
    from: int,
    back: usize,
    first: bool,
    name: Seq<char>,
)
    requires
        0 <= from <= scopes.len(),
    ensures
        with_links(scopes, from, back, first, name).len() == scopes.len(),
        forall|j: int|
            0 <= j < scopes.len() ==> #[trigger] with_links(scopes, from, back, first, name)[j]
                == if j < from || scopes[j].is_block() {
                scopes[j]
            } else {
                scopes[j].capture(chain(scopes, from, back, first, name)[place(scopes, from, j)])
            },
    decreases scopes.len() - from,
{
    if from < scopes.len() {
        if scopes[from].is_block() {
            assert(scopes.take(from + 1).drop_last() =~= scopes.take(from));
            lemma_links_in_scopes(scopes, from + 1, back, first, name);
        } else {
            let link = scopes[from].link(back, first, name);
            let next = scopes.update(from, scopes[from].capture(link));
            let rest = chain(next, from + 1, link.upvalue_index, false, name);
            let links = chain(scopes, from, back, first, name);
            lemma_links_in_scopes(next, from + 1, link.upvalue_index, false, name);
            lemma_capture_chain(next, from + 1, link.upvalue_index, false, name);
            assert(links == seq![link] + rest);
            let done = with_links(scopes, from, back, first, name);
            assert(done == with_links(next, from + 1, link.upvalue_index, false, name));
            assert forall|j: int| 0 <= j < scopes.len() implies #[trigger] done[j] == if j < from
                || scopes[j].is_block() {
                scopes[j]
            } else {
                scopes[j].capture(links[place(scopes, from, j)])
            } by {
                if j > from && !scopes[j].is_block() {
                    lemma_place(scopes, next, from, j);
                    let r = place(next, from + 1, j);
                    assert(links[r + 1] == rest[r]);
                }
            }
        }
    }
}

/// A longer prefix has at least as many scopes that are not blocks.
pub proof fn lemma_non_block_count_grows(scopes: Seq<ScopeView>, i: int, j: int)
    requires
        0 <= i <= j <= scopes.len(),
    ensures
        non_block_count(scopes.take(i)) <= non_block_count(scopes.take(j)),
    decreases j - i,
{
    if i < j {
        lemma_non_block_count_grows(scopes, i, j - 1);
        assert(scopes.take(j).drop_last() =~= scopes.take(j - 1));
    }
}

/// Closure chain length: a name that the scope at `d` declares, used in
/// the innermost scope without a link of that name, gets one link for each
/// scope within `d` that is not a block, which is the number of function
/// boundaries between the declaration and the use. The outermost link, and
/// no other, takes the variable's slot.
pub proof fn lemma_closure_chain_length(scopes: Seq<ScopeView>, name: Seq<char>, d: int)
    requires
        scopes.len() > 0,
        first_upvalue(scopes.last().upvalues, name) is None,
        declaring_scope(scopes, name) == Some(d),
    ensures
        0 <= d < scopes.len(),
        first_variable(scopes[d].variables, name) is Some,
        ({
            let v = first_variable(scopes[d].variables, name).unwrap();
            let slot = scopes[d].variables[v].index;
            let closed = scopes.update(d, scopes[d].close(v));
            let links = chain(closed, d + 1, slot, true, name);
            &&& resolve_upvalue(scopes, name) matches Ok((after, found))
            &&& after == with_links(closed, d + 1, slot, true, name)
            &&& links.len() == non_block_count(scopes) - non_block_count(scopes.take(d + 1))
            &&& forall|i: int| 0 <= i < links.len() ==> (#[trigger] links[i]).is_local == (i == 0)
            &&& links.len() > 0 ==> found == links.last() && links[0].local_index == slot
            &&& links.len() == 0 ==> found == scopes[d].closed(v)
        }),
{
    lemma_declaring_scope(scopes, name);
    let v = first_variable(scopes[d].variables, name).unwrap();
    let slot = scopes[d].variables[v].index;
    let closed = scopes.update(d, scopes[d].close(v));
    lemma_capture_chain(closed, d + 1, slot, true, name);
    lemma_non_block_count_by_kind(scopes, closed);
    lemma_non_block_count_by_kind(scopes.take(d + 1), closed.take(d + 1));
}

/// What `declaring_scope` finds: a scope that is no block and declares the
/// name, with no such scope within it.
pub proof fn lemma_declaring_scope(scopes: Seq<ScopeView>, name: Seq<char>)
    ensures
        match declaring_scope(scopes, name) {
            Some(d) => {
                &&& 0 <= d < scopes.len()
                &&& !scopes[d].is_block()
                &&& first_variable(scopes[d].variables, name) is Some
                &&& forall|j: int|
                    d < j < scopes.len() ==> scopes[j].is_block() || first_variable(
                        scopes[j].variables,
                        name,
                    ) is None
            },
            None => forall|j: int|
                0 <= j < scopes.len() ==> scopes[j].is_block() || first_variable(
                    scopes[j].variables,
                    name,
                ) is None,
        },
    decreases scopes.len(),
{
    if scopes.len() > 0 {
        let prefix = scopes.drop_last();
        lemma_declaring_scope(prefix, name);
        assert(forall|j: int| 0 <= j < prefix.len() ==> prefix[j] == scopes[j]);
    }
}

/// State of the generator: the open scopes, the outermost first, and the
/// classes seen so far.
#[derive(Debug)]
pub struct GeneratorState {
    pub scopes: Vec<Scope>,
    pub classes: Vec<Class>,
}

impl View for GeneratorState {
    type V = Seq<ScopeView>;

    /// The open scopes, the outermost first.
    open spec fn view(&self) -> Seq<ScopeView> {
        views(self.scopes@)
    }
}

impl Clone for GeneratorState {
    fn clone(&self) -> (copy: Self)
        ensures
            copy@ == self@,
            views(copy.classes@) == views(self.classes@),
    {
        let mut scopes: Vec<Scope> = Vec::new();
        let mut i: usize = 0;
        while i < self.scopes.len()
            invariant
                i <= self.scopes@.len(),
                scopes@.len() == i,
                forall|k: int| 0 <= k < i ==> (#[trigger] scopes@[k])@ == self.scopes@[k]@,
            decreases self.scopes@.len() - i,
        {
            scopes.push(self.scopes[i].clone());
            i += 1;
        }
        let mut classes: Vec<Class> = Vec::new();
        let mut j: usize = 0;
        while j < self.classes.len()
            invariant
                j <= self.classes@.len(),
                classes@.len() == j,
                forall|k: int| 0 <= k < j ==> (#[trigger] classes@[k])@ == self.classes@[k]@,
            decreases self.classes@.len() - j,
        {
            classes.push(self.classes[j].clone());
            j += 1;
        }
        let copy = GeneratorState { scopes, classes };
        proof {
            assert(copy@ =~= self@);
            assert(views(copy.classes@) =~= views(self.classes@));
        }
        copy
    }
}

impl GeneratorState {
    /// There is an outermost scope, and it is no block.
    pub open spec fn wf(&self) -> bool {
        self@.len() > 0 && !self@[0].is_block()
    }

    /// A state with the global scope open.
    pub fn new() -> (state: Self)
        ensures
            state@ == seq![ScopeView::fresh(ScopeType::Global, 0)],
            state.classes@.len() == 0,
            state.wf(),
    {
        let mut scopes: Vec<Scope> = Vec::new();
        scopes.push(Scope::new(ScopeType::Global, 0));
        let state = GeneratorState { scopes, classes: Vec::new() };
        proof {
            assert(state@ =~= seq![ScopeView::fresh(ScopeType::Global, 0)]);
        }
        state
    }

    /// The innermost scope, for writing.
    pub fn current_scope_mut(&mut self) -> (scope: &mut Scope)
        requires
            old(self).wf(),
        ensures
            *scope == old(self).scopes@.last(),
            final(self).scopes@ == old(self).scopes@.update(
                old(self).scopes@.len() - 1,
                *final(scope),
            ),
            final(self).classes == old(self).classes,
    {
        let last = self.scopes.len() - 1;
        &mut self.scopes[last]
    }

    /// The innermost scope.
    pub fn current_scope(&self) -> (scope: &Scope)
        requires
            self.wf(),
        ensures
            scope@ == self@.last(),
            *scope == self.scopes@.last(),
    {
        &self.scopes[self.scopes.len() - 1]
    }

    /// Tells whether the code being generated is that of a function inside
    /// another function.
    pub fn is_in_closure(&self) -> (inside: bool)
        ensures
            inside == in_closure(self@),
    {
        let mut i: usize = self.scopes.len();
        proof {
            assert(self@.take(i as int) =~= self@);
        }
        while i > 0 && self.scopes[i - 1].scope_type == ScopeType::Block
            invariant
                i <= self.scopes@.len(),
                innermost_non_block(self@) == innermost_non_block(self@.take(i as int)),
            decreases i,
        {
            proof {
                assert(self@.take(i as int).drop_last() =~= self@.take(i - 1));
            }
            i -= 1;
        }
        if i == 0 {
            return false;
        }
        let inner = i - 1;
        proof {
            assert(self@.take(self@.len() as int) =~= self@);
            assert(innermost_non_block(self@) == Some(inner as int));
        }
        if self.scopes[inner].scope_type != ScopeType::Function {
            return false;
        }
        let mut j: usize = inner;
        while j > 0 && self.scopes[j - 1].scope_type == ScopeType::Block
            invariant
                j <= inner,
                inner < self.scopes@.len(),
                innermost_non_block(self@.take(inner as int)) == innermost_non_block(
                    self@.take(j as int),
                ),
            decreases j,
        {
            proof {
                assert(self@.take(j as int).drop_last() =~= self@.take(j - 1));
            }
            j -= 1;
        }
        if j == 0 {
            return false;
        }
        self.scopes[j - 1].scope_type == ScopeType::Function
    }

    /// Number of variables that the innermost scope declares.
    pub fn declared(&self) -> (count: usize)
        requires
            self.wf(),
        ensures
            count == self@.last().variables.len(),
    {
        self.current_scope().variables.len()
    }

    /// Records that the innermost scope has returned.
    pub fn set_returned(&mut self)
        requires
            old(self).wf(),
        ensures
            final(self).classes == old(self).classes,
            final(self)@ == old(self)@.update(
                old(self)@.len() - 1,
                ScopeView { returned: true, ..old(self)@.last() },
            ),
            final(self).wf(),
    {
        let ghost before = self.scopes@;
        self.current_scope_mut().returned = true;
        proof {
            lemma_views_update(before, before.len() - 1, self.scopes@.last());
        }
    }

    /// Tells whether the innermost scope has returned.
    pub fn did_return(&self) -> (returned: bool)
        requires
            self.wf(),
        ensures
            returned == self@.last().returned,
    {
        self.current_scope().returned
    }

    /// Opens a scope inside the innermost one.
    pub fn enter_scope(&mut self, scope_type: ScopeType, starting_index: usize)
        ensures
            final(self).classes == old(self).classes,
            final(self)@ == old(self)@.push(ScopeView::fresh(scope_type, starting_index)),
            old(self).wf() ==> final(self).wf(),
    {
        let scope = Scope::new(scope_type, starting_index);
        proof {
            lemma_views_push(self.scopes@, scope);
        }
        self.scopes.push(scope);
    }

    /// Closes the innermost scope and returns it. The outermost scope
    /// stays, and so does a scope that still owns an open patch: these two
    /// are the only failures, and they change nothing.
    pub fn leave_scope(&mut self) -> (result: Result<Scope, GenerationFault>)
        requires
            old(self).wf(),
        ensures
            final(self).classes == old(self).classes,
            final(self).wf(),
            match leave(old(self)@) {
                Ok((after, left)) => (result matches Ok(scope) && scope@ == left) && final(self)@
                    == after,
                Err(fault) => result == Err::<Scope, GenerationFault>(fault) && final(self)@
                    == old(self)@,
            },
    {
        if self.scopes.len() == 1 {
            return Err(GenerationFault::LeftGlobalScope);
        }
        if self.current_scope().patches.len() > 0 {
            return Err(GenerationFault::UnresolvedPatch);
        }
        let ghost before = self.scopes@;
        let scope = self.scopes.pop().unwrap();
        proof {
            assert(self@ =~= views(before).drop_last());
        }
        Ok(scope)
    }

    /// Function-nesting depth: the number of open scopes that are not
    /// blocks, the global one not counted.
    pub fn depth(&self) -> (depth: usize)
        requires
            self.wf(),
        ensures
            depth == non_block_count(self@) - 1,
    {
        let mut count: usize = 0;
        let mut i: usize = 0;
        while i < self.scopes.len()
            invariant
                i <= self.scopes@.len(),
                count == non_block_count(self@.take(i as int)),
                count <= i,
                self.wf(),
                i > 0 ==> count >= 1,
            decreases self.scopes@.len() - i,
        {
            proof {
                assert(self@.take(i + 1).drop_last() =~= self@.take(i as int));
                if i == 0 {
                    assert(self@.take(0).len() == 0);
                }
            }
            if self.scopes[i].scope_type != ScopeType::Block {
                count += 1;
            }
            i += 1;
        }
        proof {
            assert(self@.take(self@.len() as int) =~= self@);
        }
        count - 1
    }

    /// Number of variables in the frame that the innermost scope belongs
    /// to, if it can be counted.
    #[verifier::loop_isolation(false)]
    pub fn frame_size(&self) -> (size: Option<usize>)
        requires
            self.wf(),
        ensures
            size == if frame_count(self@) <= usize::MAX {
                Some(frame_count(self@) as usize)
            } else {
                None::<usize>
            },
    {
        let len = self.scopes.len();
        let mut size: usize = 0;
        let mut i: usize = len;
        let mut done = false;
        proof {
            assert(self@.take(len as int) =~= self@);
        }
        while i > 0 && !done
            invariant
                i <= len,
                frame_count(self@) == size + if done {
                    0nat
                } else {
                    frame_count(self@.take(i as int))
                },
            decreases i, if done { 0int } else { 1int },
        {
            proof {
                assert(self@.take(i as int).drop_last() =~= self@.take(i - 1));
                assert(self@.take(i as int).last() == self@[i - 1]);
                assert(frame_count(self@.take(i as int)) >= self@[i - 1].variables.len());
            }
            let scope = &self.scopes[i - 1];
            match size.checked_add(scope.variables.len()) {
                Some(sum) => {
                    size = sum;
                },
                None => {
                    return None;
                },
            }
            if scope.scope_type == ScopeType::Function || scope.scope_type
                == ScopeType::Global {
                done = true;
            } else {
                i -= 1;
            }
        }
        proof {
            if !done {
                assert(self@.take(0).len() == 0);
            }
        }
        Some(size)
    }

    /// Declares `name` in the innermost scope, at the next slot of its
    /// frame. Fails, and changes nothing, exactly when that slot cannot be
    /// counted.
    #[verifier::loop_isolation(false)]
    pub fn declare_var(&mut self, name: ProgramText) -> (result: Result<(), GenerationFault>)
        requires
            old(self).wf(),
        ensures
            final(self).classes == old(self).classes,
            final(self).wf(),
            match declare_variable(old(self)@, name@) {
                Ok(after) => result is Ok && final(self)@ == after,
                Err(fault) => result == Err::<(), GenerationFault>(fault)
                    && final(self)@ == old(self)@,
            },
    {
        let depth = self.depth();
        let last = self.scopes.len() - 1;
        let mut offset: usize = 0;
        proof {
            assert(self@.drop_last() =~= self@.take(last as int));
        }
        if self.scopes[last].scope_type != ScopeType::Function {
            let mut i: usize = last;
            let mut done = false;
            while i > 0 && !done
                invariant
                    i <= last,
                    last == self@.len() - 1,
                    self@ == old(self)@,
                    frame_count(self@.take(last as int)) == offset + if done {
                        0nat
                    } else {
                        frame_count(self@.take(i as int))
                    },
                decreases i, if done { 0int } else { 1int },
            {
                proof {
                    assert(self@.take(i as int).drop_last() =~= self@.take(i - 1));
                    assert(self@.take(i as int).last() == self@[i - 1]);
                    assert(frame_count(self@.take(i as int)) >= self@[i - 1].variables.len());
                }
                let scope = &self.scopes[i - 1];
                match offset.checked_add(scope.variables.len()) {
                    Some(sum) => {
                        offset = sum;
                    },
                    None => {
                        return Err(GenerationFault::TooManyVariables);
                    },
                }
                if scope.scope_type == ScopeType::Function || scope.scope_type
                    == ScopeType::Global {
                    done = true;
                } else {
                    i -= 1;
                }
            }
            proof {
                if !done {
                    assert(self@.take(0).len() == 0);
                }
            }
        }
        let index = match offset.checked_add(self.scopes[last].variables.len()) {
            Some(index) => index,
            None => {
                return Err(GenerationFault::TooManyVariables);
            },
        };
        let variable = Variable { name, depth, index, upvalue_index: None };
        let ghost before = self.scopes@;
        proof {
            lemma_views_push(before[last as int].variables@, variable);
        }
        self.scopes[last].variables.push(variable);
        proof {
            lemma_views_update(before, last as int, self.scopes@[last as int]);
            assert(self.scopes@ =~= before.update(last as int, self.scopes@[last as int]));
        }
        Ok(())
    }

    /// Finds the upvalue called `name`, making the links that lead to it
    /// where they are missing. Fails, and changes nothing, exactly when no
    /// open scope but a block declares the name.
    #[verifier::loop_isolation(false)]
    pub fn search_upvalue_var(&mut self, name: &str) -> (result: Result<Upvalue, GenerationFault>)
        requires
            old(self).wf(),
        ensures
            final(self).classes == old(self).classes,
            final(self).wf(),
            match resolve_upvalue(old(self)@, name@) {
                Ok((after, found)) => result matches Ok(upvalue)
                    && upvalue@ == found
                    && final(self)@ == after,
                Err(fault) => result == Err::<Upvalue, GenerationFault>(fault) && final(self)@
                    == old(self)@,
            },
    {
        let len = self.scopes.len();
        // A link that the innermost scope already has is used again.
        let current = &self.scopes[len - 1];
        let mut k: usize = 0;
        while k < current.upvalues.len()
            invariant
                k <= current.upvalues@.len(),
                self@ == old(self)@,
                forall|j: int| 0 <= j < k ==> current@.upvalues[j].name != name@,
            decreases current.upvalues@.len() - k,
        {
            if str_eq(current.upvalues[k].name.as_str(), name) {
                proof {
                    lemma_first_upvalue_found(current@.upvalues, name@, k as int);
                }
                return Ok(current.upvalues[k].clone());
            }
            k += 1;
        }
        proof {
            lemma_first_upvalue(current@.upvalues, name@);
        }
        // The innermost scope, blocks left out, that declares the name.
        let mut i: usize = len;
        let mut declared: Option<(usize, usize)> = None;
        proof {
            assert(self@.take(len as int) =~= self@);
        }
        while i > 0 && declared.is_none()
            invariant
                i <= len,
                len == self@.len(),
                self@ == old(self)@,
                match declared {
                    Some((d, v)) => d < len && declaring_scope(self@, name@) == Some(d as int)
                        && first_variable(self@[d as int].variables, name@) == Some(v as int),
                    None => declaring_scope(self@, name@) == declaring_scope(
                        self@.take(i as int),
                        name@,
                    ),
                },
            decreases i, if declared is Some { 0int } else { 1int },
        {
            proof {
                assert(self@.take(i as int).drop_last() =~= self@.take(i - 1));
                assert(self@.take(i as int).last() == self@[i - 1]);
            }
            let scope = &self.scopes[i - 1];
            let mut hit: Option<usize> = None;
            if scope.scope_type != ScopeType::Block {
                if let Some((_, v)) = search_var(scope, name) {
                    hit = Some(v);
                }
            }
            match hit {
                Some(v) => {
                    declared = Some((i - 1, v));
                },
                None => {
                    i -= 1;
                },
            }
        }
        let (d, v) = match declared {
            Some(pair) => pair,
            None => {
                proof {
                    assert(self@.take(0).len() == 0);
                }
                return Err(GenerationFault::UndeclaredName);
            },
        };
        proof {
            lemma_first_variable(self@[d as int].variables, name@);
        }
        let ghost before = self.scopes@;
        let described = match self.scopes[d].close_variable(v) {
            Ok(upvalue) => upvalue,
            Err(fault) => {
                return Err(fault);
            },
        };
        proof {
            lemma_views_update(before, d as int, self.scopes@[d as int]);
            assert(self.scopes@ =~= before.update(d as int, self.scopes@[d as int]));
        }
        let ghost closed = self@;
        let ghost slot = described.local_index;
        let ghost target = with_links(closed, d + 1, slot, true, name@);
        let ghost links = chain(closed, d + 1, slot, true, name@);
        let mut back = described.local_index;
        let mut first = true;
        let mut found = described;
        let mut j: usize = d + 1;
        let ghost mut made: Seq<UpvalueView> = Seq::empty();
        while j < len
            invariant
                d < j <= len,
                len == self@.len(),
                self.classes == old(self).classes,
                !self@[0].is_block(),
                with_links(self@, j as int, back, first, name@) == target,
                made + chain(self@, j as int, back, first, name@) == links,
                found@ == if made.len() == 0 {
                    closed[d as int].closed(v as int)
                } else {
                    made.last()
                },
            decreases len - j,
        {
            if self.scopes[j].scope_type != ScopeType::Block {
                let ghost before_link = self.scopes@;
                let ghost rest = chain(self@, j as int, back, first, name@);
                let owned = name.to_owned();
                let link = self.scopes[j].make_enclosed_upvalue(back, first, owned);
                proof {
                    lemma_views_update(before_link, j as int, self.scopes@[j as int]);
                    assert(self.scopes@ =~= before_link.update(j as int, self.scopes@[j as int]));
                    assert(self@ == views(before_link).update(
                        j as int,
                        views(before_link)[j as int].capture(link@),
                    ));
                    assert(rest == seq![link@] + chain(
                        self@,
                        j + 1,
                        link.upvalue_index,
                        false,
                        name@,
                    ));
                    assert(made + rest =~= made.push(link@) + chain(
                        self@,
                        j + 1,
                        link.upvalue_index,
                        false,
                        name@,
                    ));
                    made = made.push(link@);
                }
                back = link.upvalue_index;
                first = false;
                found = link;
            }
            j += 1;
        }
        proof {
            assert(made + Seq::<UpvalueView>::empty() =~= made);
        }
        Ok(found)
    }

    /// A copy of the variable called `name` that the innermost scope
    /// declares; scopes around it are not searched.
    pub fn search_local_var(&self, name: &str) -> (found: Option<Variable>)
        requires
            self.wf(),
        ensures
            match first_variable(self@.last().variables, name@) {
                Some(i) => found matches Some(variable) && variable@ == self@.last().variables[i],
                None => found is None,
            },
    {
        match search_var(self.current_scope(), name) {
            Some((variable, _)) => Some(variable),
            None => None,
        }
    }

    /// Where `name` lives: in a slot of the innermost scope if that scope
    /// declares it, else behind an upvalue. Fails, and changes nothing,
    /// exactly when the upvalue search fails.
    pub fn find_var_address(&mut self, name: &str) -> (result: Result<
        MemoryAddress,
        GenerationFault,
    >)
        requires
            old(self).wf(),
        ensures
            final(self).classes == old(self).classes,
            final(self).wf(),
            match resolve_address(old(self)@, name@) {
                Ok((after, found)) => result matches Ok(address)
                    && address@ == found
                    && final(self)@ == after,
                Err(fault) => result == Err::<MemoryAddress, GenerationFault>(fault)
                    && final(self)@ == old(self)@,
            },
    {
        if let Some(local_variable) = self.search_local_var(name) {
            return Ok(MemoryAddress::Local(local_variable.index));
        }
        match self.search_upvalue_var(name) {
            Ok(upvalue) => Ok(
                MemoryAddress::Upvalue { index: upvalue.upvalue_index, is_ref: upvalue.is_ref },
            ),
            Err(fault) => Err(fault),
        }
    }

    /// The links of the innermost scope, in the order in which they were
    /// made.
    pub fn scope_upvalues(&self) -> (upvalues: Vec<&Upvalue>)
        requires
            self.wf(),
        ensures
            upvalues@.len() == self@.last().upvalues.len(),
            forall|i: int| 0 <= i < upvalues@.len() ==>
                (#[trigger] upvalues@[i])@ == self@.last().upvalues[i],
    {
        let scope = self.current_scope();
        let mut upvalues: Vec<&Upvalue> = Vec::new();
        let mut i: usize = 0;
        while i < scope.upvalues.len()
            invariant
                i <= scope.upvalues@.len(),
                upvalues@.len() == i,
                forall|k: int| 0 <= k < i ==> *(#[trigger] upvalues@[k]) == scope.upvalues@[k],
            decreases scope.upvalues@.len() - i,
        {
            upvalues.push(&scope.upvalues[i]);
            i += 1;
        }
        upvalues
    }

    /// Gives the innermost scope an open patch.
    pub fn add_patch(&mut self, patch: Patch)
        requires
            old(self).wf(),
        ensures
            final(self).classes == old(self).classes,
            final(self).wf(),
            final(self)@ == old(self)@.update(
                old(self)@.len() - 1,
                ScopeView {
                    patches: old(self)@.last().patches.insert(patch.index),
                    ..old(self)@.last()
                },
            ),
    {
        let ghost before = self.scopes@;
        self.current_scope_mut().patches.insert(patch.index);
        proof {
            lemma_views_update(before, before.len() - 1, self.scopes@.last());
        }
    }

    /// Takes a patch from the innermost scope; the answer tells whether the
    /// scope owned it.
    pub fn remove_patch(&mut self, patch: &Patch) -> (owned: bool)
        requires
            old(self).wf(),
        ensures
            final(self).classes == old(self).classes,
            final(self).wf(),
            owned == old(self)@.last().patches.contains(patch.index),
            final(self)@ == old(self)@.update(
                old(self)@.len() - 1,
                ScopeView {
                    patches: old(self)@.last().patches.remove(patch.index),
                    ..old(self)@.last()
                },
            ),
    {
        let ghost before = self.scopes@;
        let owned = self.current_scope_mut().patches.remove(&patch.index);
        proof {
            lemma_views_update(before, before.len() - 1, self.scopes@.last());
        }
        owned
    }
}

} // verus!
