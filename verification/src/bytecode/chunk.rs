//! The container that the generator writes and the machine reads.
use vstd::prelude::*;
use crate::bytecode::{MemoryAddress, MemoryAddressView, Opcode};
use crate::common::{lemma_views_push, str_eq, views, Number};

verus! {

pub use crate::bytecode::ConstantIndex;

/// A literal that a chunk carries in its pool.
#[derive(Debug, PartialEq)]
pub enum Constant {
    Number(Number),
    Bool(bool),
    Text(String),
    MemoryAddress(MemoryAddress),
}

/// Mathematical value of a [`Constant`].
pub enum ConstantView {
    Number(Number),
    Bool(bool),
    Text(Seq<char>),
    MemoryAddress(MemoryAddressView),
}

impl View for Constant {
    type V = ConstantView;

    open spec fn view(&self) -> ConstantView {
        match *self {
            Constant::Number(n) => ConstantView::Number(n),
            Constant::Bool(b) => ConstantView::Bool(b),
            Constant::Text(t) => ConstantView::Text(t@),
            Constant::MemoryAddress(a) => ConstantView::MemoryAddress(a@),
        }
    }
}

impl Constant {
    /// Tells whether two constants hold the same literal.
    pub fn same_as(&self, other: &Constant) -> (same: bool)
        ensures
            same == (self@ == other@),
    {
        match (self, other) {
            (Constant::Number(a), Constant::Number(b)) => *a == *b,
            (Constant::Bool(a), Constant::Bool(b)) => *a == *b,
            (Constant::Text(a), Constant::Text(b)) => str_eq(a.as_str(), b.as_str()),
            (Constant::MemoryAddress(a), Constant::MemoryAddress(b)) => a.same_as(b),
            _ => false,
        }
    }
}

impl Clone for Constant {
    fn clone(&self) -> (copy: Self)
        ensures
            copy == *self,
    {
        match self {
            Constant::Number(n) => Constant::Number(*n),
            Constant::Bool(b) => Constant::Bool(*b),
            Constant::Text(t) => Constant::Text(t.clone()),
            Constant::MemoryAddress(a) => Constant::MemoryAddress(a.clone()),
        }
    }
}

/// The instructions of one function, in order, and its pool of constants.
#[derive(Debug, PartialEq)]
pub struct Chunk {
    pub opcodes: Vec<Opcode>,
    pub constants: Vec<Constant>,
}

/// Mathematical value of a [`Chunk`].
pub struct ChunkView {
    pub opcodes: Seq<Opcode>,
    pub constants: Seq<ConstantView>,
}

impl ChunkView {
    /// Every `Constant` instruction names an entry of the pool.
    pub open spec fn well_formed(self) -> bool {
        forall|i: int|
            0 <= i < self.opcodes.len() ==> (#[trigger] self.opcodes[i] matches Opcode::Constant(c)
                ==> c < self.constants.len())
    }
}

impl View for Chunk {
    type V = ChunkView;

    open spec fn view(&self) -> ChunkView {
        ChunkView { opcodes: self.opcodes@, constants: views(self.constants@) }
    }
}

impl Clone for Chunk {
    fn clone(&self) -> (copy: Self)
        ensures
            copy@ == self@,
    {
        let mut opcodes: Vec<Opcode> = Vec::new();
        let mut i: usize = 0;
        while i < self.opcodes.len()
            invariant
                i <= self.opcodes@.len(),
                opcodes@ == self.opcodes@.take(i as int),
            decreases self.opcodes@.len() - i,
        {
            opcodes.push(self.opcodes[i]);
            i += 1;
        }
        let mut constants: Vec<Constant> = Vec::new();
        let mut j: usize = 0;
        while j < self.constants.len()
            invariant
                j <= self.constants@.len(),
                constants@ == self.constants@.take(j as int),
            decreases self.constants@.len() - j,
        {
            constants.push(self.constants[j].clone());
            j += 1;
        }
        proof {
            assert(opcodes@ =~= self.opcodes@);
            assert(constants@ =~= self.constants@);
        }
        Chunk { opcodes, constants }
    }
}

impl Default for Chunk {
    fn default() -> (chunk: Self)
        ensures
            chunk@.opcodes.len() == 0,
            chunk@.constants.len() == 0,
    {
        Chunk { opcodes: Vec::new(), constants: Vec::new() }
    }
}

impl Chunk {
    /// A chunk with the given instructions and pool.
    pub fn new(opcodes: Vec<Opcode>, constants: Vec<Constant>) -> (chunk: Self)
        ensures
            chunk@.opcodes == opcodes@,
            chunk@.constants == views(constants@),
    {
        Chunk { opcodes, constants }
    }

    /// Appends an instruction and gives its position.
    pub fn write_opcode(&mut self, opcode: Opcode) -> (index: usize)
        ensures
            index == old(self)@.opcodes.len(),
            final(self)@.opcodes == old(self)@.opcodes.push(opcode),
            final(self)@.constants == old(self)@.constants,
    {
        self.opcodes.push(opcode);
        self.opcodes.len() - 1
    }

    /// Appends a constant to the pool and gives its position there.
    pub fn write_constant(&mut self, constant: Constant) -> (index: ConstantIndex)
        ensures
            index == old(self)@.constants.len(),
            final(self)@.constants == old(self)@.constants.push(constant@),
            final(self)@.opcodes == old(self)@.opcodes,
    {
        proof {
            lemma_views_push(self.constants@, constant);
        }
        self.constants.push(constant);
        self.constants.len() - 1
    }

    /// Number of instructions.
    pub fn opcodes_len(&self) -> (len: usize)
        ensures
            len == self@.opcodes.len(),
    {
        self.opcodes.len()
    }

    /// The instruction at a position.
    pub fn read_opcode(&self, index: usize) -> (opcode: Opcode)
        requires
            index < self@.opcodes.len(),
        ensures
            opcode == self@.opcodes[index as int],
    {
        self.opcodes[index]
    }

    /// The pool entry at a position, if there is one.
    pub fn read_constant(&self, index: ConstantIndex) -> (constant: Option<&Constant>)
        ensures
            index < self@.constants.len() ==> (constant matches Some(c) && c@
                == self@.constants[index as int]),
            index >= self@.constants.len() ==> constant is None,
    {
        if index < self.constants.len() {
            Some(&self.constants[index])
        } else {
            None
        }
    }

    /// Writes `opcode` over the instruction at `index`.
    pub fn replace_opcode(&mut self, index: usize, opcode: Opcode)
        requires
            index < old(self)@.opcodes.len(),
        ensures
            final(self)@.opcodes == old(self)@.opcodes.update(index as int, opcode),
            final(self)@.constants == old(self)@.constants,
    {
        self.opcodes[index] = opcode;
    }

    /// Tells whether two chunks hold the same instructions and the same
    /// pool.
    pub fn same_as(&self, other: &Chunk) -> (same: bool)
        ensures
            same == (self@ == other@),
    {
        if self.opcodes.len() != other.opcodes.len() || self.constants.len()
            != other.constants.len() {
            proof {
                assert(self@.constants.len() == self.constants@.len());
                assert(other@.constants.len() == other.constants@.len());
            }
            return false;
        }
        let mut i: usize = 0;
        while i < self.opcodes.len()
            invariant
                i <= self.opcodes@.len(),
                self.opcodes@.len() == other.opcodes@.len(),
                forall|k: int| 0 <= k < i ==> self.opcodes@[k] == other.opcodes@[k],
            decreases self.opcodes@.len() - i,
        {
            if self.opcodes[i] != other.opcodes[i] {
                return false;
            }
            i += 1;
        }
        let mut j: usize = 0;
        while j < self.constants.len()
            invariant
                j <= self.constants@.len(),
                self.constants@.len() == other.constants@.len(),
                self.opcodes@ =~= other.opcodes@,
                forall|k: int| 0 <= k < j ==> self@.constants[k] == other@.constants[k],
            decreases self.constants@.len() - j,
        {
            if !self.constants[j].same_as(&other.constants[j]) {
                assert(self@.constants[j as int] != other@.constants[j as int]);
                return false;
            }
            j += 1;
        }
        proof {
            assert(self@.constants =~= other@.constants);
        }
        true
    }

    /// Tells whether every `Constant` instruction names an entry of the pool.
    pub fn is_well_formed(&self) -> (ok: bool)
        ensures
            ok == self@.well_formed(),
    {
        let mut i: usize = 0;
        while i < self.opcodes.len()
            invariant
                i <= self.opcodes@.len(),
                forall|k: int|
                    0 <= k < i ==> (#[trigger] self@.opcodes[k] matches Opcode::Constant(c) ==> c
                        < self@.constants.len()),
            decreases self.opcodes@.len() - i,
        {
            if let Opcode::Constant(c) = self.opcodes[i] {
                if c >= self.constants.len() {
                    return false;
                }
            }
            i += 1;
        }
        true
    }
}

} // verus!
