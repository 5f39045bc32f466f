//! Well-formedness of a function table: what a table has to satisfy before its
//! graph can be handed to the back end.

use vstd::prelude::*;
use crate::cfg::{
    ids, views, Block, BlockView, Function, FunctionTable, FunctionView, Inst, InstView,
    Terminator, TerminatorView,
};

verus! {

/// `v` names a value for the instruction at position `at` of `code`: an earlier
/// instruction of the block, and not a store.
pub open spec fn operand_ok(code: Seq<InstView>, at: int, v: nat) -> bool {
    v < at && at <= code.len() && !(code[v as int] is Store)
}

/// The instruction at position `i` of `code` refers only to what exists: its
/// operands are values of earlier instructions, its slot is one of the
/// function's `nslots` slots, its parameter one of the `nparams` parameters, its
/// callee one of the table's `nfuncs` functions.
pub open spec fn inst_ok(code: Seq<InstView>, i: int, nslots: nat, nparams: nat, nfuncs: nat) -> bool {
    match code[i] {
        InstView::ConstInt(_) => true,
        InstView::ConstBool(_) => true,
        InstView::Param(k) => k < nparams,
        InstView::Load(slot) => slot < nslots,
        InstView::Store { slot, value } => slot < nslots && operand_ok(code, i, value),
        InstView::Neg(v) => operand_ok(code, i, v),
        InstView::Binary { op, lhs, rhs } => operand_ok(code, i, lhs) && operand_ok(code, i, rhs),
        InstView::Call { callee, args } => callee < nfuncs && forall|k: int|
            0 <= k < args.len() ==> #[trigger] operand_ok(code, i, args[k]),
    }
}

/// The terminator of `b`, if it has one, jumps only to blocks of the function
/// and uses only values of the block.
pub open spec fn term_ok(b: BlockView, nblocks: nat) -> bool {
    match b.term {
        None => true,
        Some(TerminatorView::Jump(target)) => target < nblocks,
        Some(TerminatorView::Branch { cond, on_true, on_false }) => operand_ok(
            b.insts,
            b.insts.len() as int,
            cond,
        ) && on_true < nblocks && on_false < nblocks,
        Some(TerminatorView::Return(None)) => true,
        Some(TerminatorView::Return(Some(v))) => operand_ok(b.insts, b.insts.len() as int, v),
    }
}

/// Every instruction of the block and its terminator are in order.
pub open spec fn block_ok(b: BlockView, nslots: nat, nparams: nat, nfuncs: nat, nblocks: nat) -> bool {
    &&& forall|i: int| 0 <= i < b.insts.len() ==> #[trigger] inst_ok(b.insts, i, nslots, nparams, nfuncs)
    &&& term_ok(b, nblocks)
}

/// The function has an entry block, and every block of it is in order.
pub open spec fn function_ok(f: FunctionView, nfuncs: nat) -> bool {
    &&& f.blocks.len() >= 1
    &&& forall|b: int|
        0 <= b < f.blocks.len() ==> block_ok(
            #[trigger] f.blocks[b],
            f.slots.len(),
            f.sig.params.len(),
            nfuncs,
            f.blocks.len(),
        )
}

/// Every function of the table is in order.
pub open spec fn table_ok(table: Seq<FunctionView>) -> bool {
    forall|i: int| 0 <= i < table.len() ==> function_ok(#[trigger] table[i], table.len())
}

/// Tells whether `v` names a value for the instruction at position `at`.
fn operand_valid(insts: &Vec<Inst>, at: usize, v: usize) -> (ok: bool)
    ensures
        ok == operand_ok(views(insts@), at as int, v as nat),
{
    if v < at && at <= insts.len() {
        match &insts[v] {
            Inst::Store { .. } => false,
            _ => true,
        }
    } else {
        false
    }
}

/// Tells whether the instruction at position `i` refers only to what exists.
fn inst_valid(insts: &Vec<Inst>, i: usize, nslots: usize, nparams: usize, nfuncs: usize) -> (ok:
    bool)
    requires
        i < insts@.len(),
    ensures
        ok == inst_ok(views(insts@), i as int, nslots as nat, nparams as nat, nfuncs as nat),
{
    match &insts[i] {
        Inst::ConstInt(_) => true,
        Inst::ConstBool(_) => true,
        Inst::Param(k) => *k < nparams,
        Inst::Load(slot) => *slot < nslots,
        Inst::Store { slot, value } => *slot < nslots && operand_valid(insts, i, *value),
        Inst::Neg(v) => operand_valid(insts, i, *v),
        Inst::Binary { lhs, rhs, .. } => operand_valid(insts, i, *lhs) && operand_valid(
            insts,
            i,
            *rhs,
        ),
        Inst::Call { callee, args } => {
            if *callee >= nfuncs {
                return false;
            }
            let mut k: usize = 0;
            while k < args.len()
                invariant
                    k <= args@.len(),
                    i < insts@.len(),
                    views(insts@)[i as int] == insts@[i as int]@,
                    insts@[i as int] == (Inst::Call { callee: *callee, args: *args }),
                    forall|j: int|
                        0 <= j < k ==> #[trigger] operand_ok(views(insts@), i as int, ids(args@)[j]),
                decreases args@.len() - k,
            {
                if !operand_valid(insts, i, args[k]) {
                    let ghost given = views(insts@)[i as int]->Call_args;
                    assert(given == ids(args@));
                    assert(!operand_ok(views(insts@), i as int, given[k as int]));
                    return false;
                }
                k += 1;
            }
            true
        },
    }
}

/// Tells whether a terminator is in order for a block with these instructions
/// in a function of `nblocks` blocks.
fn term_valid(block: &Block, nblocks: usize) -> (ok: bool)
    ensures
        ok == term_ok(block@, nblocks as nat),
{
    let n: usize = block.insts.len();
    match block.term {
        None => true,
        Some(Terminator::Jump(target)) => target < nblocks,
        Some(Terminator::Branch { cond, on_true, on_false }) => operand_valid(&block.insts, n, cond)
            && on_true < nblocks && on_false < nblocks,
        Some(Terminator::Return(None)) => true,
        Some(Terminator::Return(Some(v))) => operand_valid(&block.insts, n, v),
    }
}

/// Tells whether a block is in order.
fn block_valid(block: &Block, nslots: usize, nparams: usize, nfuncs: usize, nblocks: usize) -> (ok:
    bool)
    ensures
        ok == block_ok(block@, nslots as nat, nparams as nat, nfuncs as nat, nblocks as nat),
{
    let mut i: usize = 0;
    while i < block.insts.len()
        invariant
            i <= block.insts@.len(),
            forall|j: int|
                0 <= j < i ==> #[trigger] inst_ok(
                    block@.insts,
                    j,
                    nslots as nat,
                    nparams as nat,
                    nfuncs as nat,
                ),
        decreases block.insts@.len() - i,
    {
        if !inst_valid(&block.insts, i, nslots, nparams, nfuncs) {
            assert(!inst_ok(
                block@.insts,
                i as int,
                nslots as nat,
                nparams as nat,
                nfuncs as nat,
            ));
            return false;
        }
        i += 1;
    }
    term_valid(block, nblocks)
}

/// Tells whether a function is in order in a table of `nfuncs` functions.
fn function_valid(f: &Function, nfuncs: usize) -> (ok: bool)
    ensures
        ok == function_ok(f@, nfuncs as nat),
{
    if f.blocks.len() < 1 {
        return false;
    }
    let mut b: usize = 0;
    while b < f.blocks.len()
        invariant
            b <= f.blocks@.len(),
            forall|j: int|
                0 <= j < b ==> block_ok(
                    #[trigger] f@.blocks[j],
                    f@.slots.len(),
                    f@.sig.params.len(),
                    nfuncs as nat,
                    f@.blocks.len(),
                ),
        decreases f.blocks@.len() - b,
    {
        if !block_valid(&f.blocks[b], f.slots.len(), f.sig.params.len(), nfuncs, f.blocks.len()) {
            assert(f@.blocks[b as int] == f.blocks@[b as int]@);
            return false;
        }
        b += 1;
    }
    true
}

/// Tells whether a function table is well formed.
pub fn validate(table: &FunctionTable) -> (ok: bool)
    ensures
        ok == table_ok(table@),
{
    let mut i: usize = 0;
    while i < table.functions.len()
        invariant
            i <= table.functions@.len(),
            forall|j: int| 0 <= j < i ==> function_ok(#[trigger] table@[j], table@.len()),
        decreases table.functions@.len() - i,
    {
        if !function_valid(&table.functions[i], table.functions.len()) {
            assert(table@[i as int] == table.functions@[i as int]@);
            return false;
        }
        i += 1;
    }
    true
}

} // verus!
