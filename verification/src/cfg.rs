//! The control-flow graph that lowering produces: for each function its stack
//! slots and its basic blocks, each block a straight line of instructions that
//! ends in at most one branch or return.

use vstd::prelude::*;
use crate::ast::{LiteralType, Opcode};

verus! {

/// The views of the elements of a sequence, in order.
pub open spec fn views<T: View>(s: Seq<T>) -> Seq<T::V> {
    Seq::new(s.len(), |i: int| s[i]@)
}

/// Indices as natural numbers.
pub open spec fn ids(s: Seq<usize>) -> Seq<nat> {
    Seq::new(s.len(), |i: int| s[i] as nat)
}

/// The signed integer comparisons of the back end.
#[derive(Clone, Copy, Debug, PartialEq, Eq, Structural)]
pub enum Predicate {
    EQ,
    NE,
    SGT,
    SLT,
    SGE,
    SLE,
}

/// The primitives of the back end that take two operands.
#[derive(Clone, Copy, Debug, PartialEq, Eq, Structural)]
pub enum Primitive {
    Add,
    Sub,
    Mul,
    SignedDiv,
    And,
    Or,
    Compare(Predicate),
}

/// The primitive that an operator of the language lowers to.
pub open spec fn primitive_of(op: Opcode) -> Primitive {
    match op {
        Opcode::Add => Primitive::Add,
        Opcode::Sub => Primitive::Sub,
        Opcode::Mul => Primitive::Mul,
        Opcode::Div => Primitive::SignedDiv,
        Opcode::AND => Primitive::And,
        Opcode::OR => Primitive::Or,
        Opcode::EQ => Primitive::Compare(Predicate::EQ),
        Opcode::NEQ => Primitive::Compare(Predicate::NE),
        Opcode::GT => Primitive::Compare(Predicate::SGT),
        Opcode::LT => Primitive::Compare(Predicate::SLT),
        Opcode::GEQ => Primitive::Compare(Predicate::SGE),
        Opcode::LEQ => Primitive::Compare(Predicate::SLE),
    }
}

/// Maps an operator of the language to the primitive that computes it.
pub fn primitive(op: Opcode) -> (p: Primitive)
    ensures
        p == primitive_of(op),
{
    match op {
        Opcode::Add => Primitive::Add,
        Opcode::Sub => Primitive::Sub,
        Opcode::Mul => Primitive::Mul,
        Opcode::Div => Primitive::SignedDiv,
        Opcode::AND => Primitive::And,
        Opcode::OR => Primitive::Or,
        Opcode::EQ => Primitive::Compare(Predicate::EQ),
        Opcode::NEQ => Primitive::Compare(Predicate::NE),
        Opcode::GT => Primitive::Compare(Predicate::SGT),
        Opcode::LT => Primitive::Compare(Predicate::SLT),
        Opcode::GEQ => Primitive::Compare(Predicate::SGE),
        Opcode::LEQ => Primitive::Compare(Predicate::SLE),
    }
}

/// One instruction of a block. An instruction that yields a value is named by
/// its position in the block; operands are such positions, of the same block.
#[derive(Debug, PartialEq, Eq)]
pub enum Inst {
    /// A 32-bit integer constant.
    ConstInt(i32),
    /// A boolean constant.
    ConstBool(bool),
    /// The incoming value of the parameter with this index.
    Param(usize),
    /// Reads the slot with this index.
    Load(usize),
    /// Writes the value into the slot; yields nothing.
    Store { slot: usize, value: usize },
    /// Arithmetic negation.
    Neg(usize),
    /// A primitive applied to two values.
    Binary { op: Primitive, lhs: usize, rhs: usize },
    /// A call of the function with index `callee` in the function table.
    Call { callee: usize, args: Vec<usize> },
}

/// An `Inst` as a mathematical value.
pub enum InstView {
    ConstInt(i32),
    ConstBool(bool),
    Param(nat),
    Load(nat),
    Store { slot: nat, value: nat },
    Neg(nat),
    Binary { op: Primitive, lhs: nat, rhs: nat },
    Call { callee: nat, args: Seq<nat> },
}

impl View for Inst {
    type V = InstView;

    open spec fn view(&self) -> InstView {
        match self {
            Inst::ConstInt(n) => InstView::ConstInt(*n),
            Inst::ConstBool(b) => InstView::ConstBool(*b),
            Inst::Param(i) => InstView::Param(*i as nat),
            Inst::Load(s) => InstView::Load(*s as nat),
            Inst::Store { slot, value } => InstView::Store { slot: *slot as nat, value: *value as nat },
            Inst::Neg(v) => InstView::Neg(*v as nat),
            Inst::Binary { op, lhs, rhs } => InstView::Binary {
                op: *op,
                lhs: *lhs as nat,
                rhs: *rhs as nat,
            },
            Inst::Call { callee, args } => InstView::Call {
                callee: *callee as nat,
                args: ids(args@),
            },
        }
    }
}

/// How a block ends. Targets are indices of blocks of the same function.
#[derive(Clone, Copy, Debug, PartialEq, Eq, Structural)]
pub enum Terminator {
    /// An unconditional jump.
    Jump(usize),
    /// A jump to `on_true` if the value `cond` holds, to `on_false` if not.
    Branch { cond: usize, on_true: usize, on_false: usize },
    /// A return, with the value returned if there is one.
    Return(Option<usize>),
}

/// A `Terminator` as a mathematical value.
pub enum TerminatorView {
    Jump(nat),
    Branch { cond: nat, on_true: nat, on_false: nat },
    Return(Option<nat>),
}

impl View for Terminator {
    type V = TerminatorView;

    open spec fn view(&self) -> TerminatorView {
        match self {
            Terminator::Jump(b) => TerminatorView::Jump(*b as nat),
            Terminator::Branch { cond, on_true, on_false } => TerminatorView::Branch {
                cond: *cond as nat,
                on_true: *on_true as nat,
                on_false: *on_false as nat,
            },
            Terminator::Return(Some(v)) => TerminatorView::Return(Some(*v as nat)),
            Terminator::Return(None) => TerminatorView::Return(None),
        }
    }
}

/// What a block is for; it also names the block.
#[derive(Clone, Copy, Debug, PartialEq, Eq, Structural)]
pub enum BlockKind {
    Entry,
    Then,
    Else,
    IfCont,
    Cond,
    Do,
    WhileCont,
}

/// A basic block.
#[derive(Debug, PartialEq, Eq)]
pub struct Block {
    pub kind: BlockKind,
    pub insts: Vec<Inst>,
    pub term: Option<Terminator>,
}

/// A `Block` as a mathematical value.
pub struct BlockView {
    pub kind: BlockKind,
    pub insts: Seq<InstView>,
    pub term: Option<TerminatorView>,
}

impl View for Block {
    type V = BlockView;

    open spec fn view(&self) -> BlockView {
        BlockView {
            kind: self.kind,
            insts: views(self.insts@),
            term: match self.term {
                Some(t) => Some(t@),
                None => None,
            },
        }
    }
}

/// A stack slot: storage for one local variable of a function.
#[derive(Debug, PartialEq, Eq)]
pub struct Slot {
    pub name: String,
    pub ty: LiteralType,
}

/// A `Slot` as a mathematical value.
pub struct SlotView {
    pub name: Seq<char>,
    pub ty: LiteralType,
}

impl View for Slot {
    type V = SlotView;

    open spec fn view(&self) -> SlotView {
        SlotView { name: self.name@, ty: self.ty }
    }
}

/// A function's name, the types of its parameters in order, and the type it
/// returns, if it returns anything.
#[derive(Debug, PartialEq, Eq)]
pub struct Signature {
    pub name: String,
    pub params: Vec<LiteralType>,
    pub ret: Option<LiteralType>,
}

/// A `Signature` as a mathematical value.
pub struct SignatureView {
    pub name: Seq<char>,
    pub params: Seq<LiteralType>,
    pub ret: Option<LiteralType>,
}

impl View for Signature {
    type V = SignatureView;

    open spec fn view(&self) -> SignatureView {
        SignatureView { name: self.name@, params: self.params@, ret: self.ret }
    }
}

/// An entry of the function table: a signature, and the slots and blocks of the
/// body. Block 0 is the entry block.
#[derive(Debug, PartialEq, Eq)]
pub struct Function {
    pub sig: Signature,
    pub slots: Vec<Slot>,
    pub blocks: Vec<Block>,
}

/// A `Function` as a mathematical value.
pub struct FunctionView {
    pub sig: SignatureView,
    pub slots: Seq<SlotView>,
    pub blocks: Seq<BlockView>,
}

impl View for Function {
    type V = FunctionView;

    open spec fn view(&self) -> FunctionView {
        FunctionView { sig: self.sig@, slots: views(self.slots@), blocks: views(self.blocks@) }
    }
}

/// The function table: every declared function, in declaration order. A
/// function's index in the table is the handle by which calls refer to it.
#[derive(Debug, PartialEq, Eq)]
pub struct FunctionTable {
    pub functions: Vec<Function>,
}

impl View for FunctionTable {
    type V = Seq<FunctionView>;

    open spec fn view(&self) -> Seq<FunctionView> {
        views(self.functions@)
    }
}

/// The names of the functions of a table, in order.
pub open spec fn names_of(table: Seq<FunctionView>) -> Seq<Seq<char>> {
    Seq::new(table.len(), |i: int| table[i].sig.name)
}

/// The blocks that control can pass to from the end of a block.
pub open spec fn successors(b: BlockView) -> Seq<nat> {
    match b.term {
        Some(TerminatorView::Jump(target)) => seq![target],
        Some(TerminatorView::Branch { cond, on_true, on_false }) => seq![on_true, on_false],
        _ => Seq::empty(),
    }
}

/// The number of blocks of each function of a table.
pub open spec fn block_counts(table: Seq<FunctionView>) -> Seq<nat> {
    Seq::new(table.len(), |i: int| table[i].blocks.len())
}

/// The edges of each function of a table: for every block, its successors.
pub open spec fn edges(table: Seq<FunctionView>) -> Seq<Seq<Seq<nat>>> {
    Seq::new(
        table.len(),
        |i: int| Seq::new(table[i].blocks.len(), |b: int| successors(table[i].blocks[b])),
    )
}

} // verus!
