//! What can be called: functions and, structurally, classes.
use vstd::prelude::*;
use crate::bytecode::chunk::{Chunk, ChunkView};
use crate::common::{str_eq, views, ProgramText};

verus! {

/// A compiled function: its name, the number of its parameters and its code.
#[derive(Debug, PartialEq)]
pub struct Function {
    pub arity: usize,
    pub chunk: Chunk,
    pub name: ProgramText,
}

/// Mathematical value of a [`Function`].
pub struct FunctionView {
    pub arity: usize,
    pub chunk: ChunkView,
    pub name: Seq<char>,
}

impl View for Function {
    type V = FunctionView;

    open spec fn view(&self) -> FunctionView {
        FunctionView { arity: self.arity, chunk: self.chunk@, name: self.name@ }
    }
}

impl Function {
    /// Tells whether two functions have the same name, arity and code.
    pub fn same_as(&self, other: &Function) -> (same: bool)
        ensures
            same == (self@ == other@),
    {
        self.arity == other.arity && str_eq(self.name.as_str(), other.name.as_str())
            && self.chunk.same_as(&other.chunk)
    }
}

impl Clone for Function {
    fn clone(&self) -> (copy: Self)
        ensures
            copy@ == self@,
    {
        Function { arity: self.arity, chunk: self.chunk.clone(), name: self.name.clone() }
    }
}

/// A class, kept as a record only: the machine does not dispatch on it.
#[derive(Debug, PartialEq)]
pub struct Class {
    pub name: ProgramText,
    pub constructor: Function,
    /// Name of the class this one extends, if any.
    pub super_class: Option<ProgramText>,
    pub methods: Vec<Function>,
}

/// Mathematical value of a [`Class`].
pub struct ClassView {
    pub name: Seq<char>,
    pub constructor: FunctionView,
    pub super_class: Option<Seq<char>>,
    pub methods: Seq<FunctionView>,
}

impl View for Class {
    type V = ClassView;

    open spec fn view(&self) -> ClassView {
        ClassView {
            name: self.name@,
            constructor: self.constructor@,
            super_class: match self.super_class {
                Some(name) => Some(name@),
                None => None,
            },
            methods: views(self.methods@),
        }
    }
}

impl Clone for Class {
    fn clone(&self) -> (copy: Self)
        ensures
            copy@ == self@,
    {
        let mut methods: Vec<Function> = Vec::new();
        let mut i: usize = 0;
        while i < self.methods.len()
            invariant
                i <= self.methods@.len(),
                methods@.len() == i,
                forall|k: int| 0 <= k < i ==> (#[trigger] methods@[k])@ == self.methods@[k]@,
            decreases self.methods@.len() - i,
        {
            methods.push(self.methods[i].clone());
            i += 1;
        }
        let copy = Class {
            name: self.name.clone(),
            constructor: self.constructor.clone(),
            super_class: match &self.super_class {
                Some(name) => Some(name.clone()),
                None => None,
            },
            methods,
        };
        proof {
            assert(copy@.methods =~= self@.methods);
        }
        copy
    }
}

} // verus!
