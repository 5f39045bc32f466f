//! What holds of every lowered program: the graph is well formed, lowering is
//! repeatable, and a declared function is found wherever it was declared.

use vstd::prelude::*;
use crate::ast::{LiteralType, Node, Opcode};
use crate::cfg::{
    block_counts, edges, names_of, primitive_of, BlockKind, BlockView, FunctionView, InstView,
    SlotView, TerminatorView,
};
use crate::error::Failure;
use crate::lowering::{
    args_spec, block_spec, bodies_spec, call_spec, declare_spec, empty_block, entry_state,
    expr_spec, find_function, find_function_from, find_slot, find_slot_below, function_spec,
    header_spec, if_else_spec, if_spec, params_spec, program_spec, stmt_spec, while_spec,
    LoweringState,
};
use crate::validate::{block_ok, function_ok, inst_ok, operand_ok, table_ok, term_ok};

verus! {

/// `v` names a value of the current block of `st`.
pub open spec fn value_ok(st: LoweringState, v: nat) -> bool {
    operand_ok(st.code(), st.code().len() as int, v)
}

/// The state has a current block, and every block of it is in order.
pub open spec fn state_ok(st: LoweringState, nparams: nat, nfuncs: nat) -> bool {
    &&& st.current < st.blocks.len()
    &&& forall|b: int|
        0 <= b < st.blocks.len() ==> block_ok(
            #[trigger] st.blocks[b],
            st.slots.len(),
            nparams,
            nfuncs,
            st.blocks.len(),
        )
}

/// `inst` can be appended to the current block of `st`: what it refers to exists.
pub open spec fn inst_fits(st: LoweringState, inst: InstView, nparams: nat, nfuncs: nat) -> bool {
    match inst {
        InstView::ConstInt(_) => true,
        InstView::ConstBool(_) => true,
        InstView::Param(k) => k < nparams,
        InstView::Load(slot) => slot < st.slots.len(),
        InstView::Store { slot, value } => slot < st.slots.len() && value_ok(st, value),
        InstView::Neg(v) => value_ok(st, v),
        InstView::Binary { op, lhs, rhs } => value_ok(st, lhs) && value_ok(st, rhs),
        InstView::Call { callee, args } => callee < nfuncs && forall|k: int|
            0 <= k < args.len() ==> #[trigger] value_ok(st, args[k]),
    }
}

/// `t` can end the current block of `st`: its targets and its value exist.
pub open spec fn term_fits(st: LoweringState, t: TerminatorView) -> bool {
    match t {
        TerminatorView::Jump(target) => target < st.blocks.len(),
        TerminatorView::Branch { cond, on_true, on_false } => value_ok(st, cond) && on_true
            < st.blocks.len() && on_false < st.blocks.len(),
        TerminatorView::Return(None) => true,
        TerminatorView::Return(Some(v)) => value_ok(st, v),
    }
}

/// `after` is `before` with instructions appended to the current block: the
/// same slots, as many blocks, and every value of `before` still a value.
pub open spec fn grows(before: LoweringState, after: LoweringState) -> bool {
    &&& after.current == before.current
    &&& after.blocks.len() == before.blocks.len()
    &&& after.slots == before.slots
    &&& forall|v: nat| #[trigger] value_ok(before, v) ==> value_ok(after, v)
}

proof fn lemma_push_keeps_inst(
    code: Seq<InstView>,
    i: int,
    x: InstView,
    nslots: nat,
    nparams: nat,
    nfuncs: nat,
)
    requires
        0 <= i < code.len(),
        inst_ok(code, i, nslots, nparams, nfuncs),
    ensures
        inst_ok(code.push(x), i, nslots, nparams, nfuncs),
{
    let longer = code.push(x);
    assert(longer[i] == code[i]);
    assert forall|v: nat| operand_ok(code, i, v) implies operand_ok(longer, i, v) by {
        assert(longer[v as int] == code[v as int]);
    }
    match code[i] {
        InstView::Call { callee, args } => {
            assert forall|k: int| 0 <= k < args.len() implies #[trigger] operand_ok(
                longer,
                i,
                args[k],
            ) by {
                assert(operand_ok(code, i, args[k]));
            }
        },
        _ => {},
    }
}

proof fn lemma_block_ok_wider(
    b: BlockView,
    nslots: nat,
    nparams: nat,
    nfuncs: nat,
    nblocks: nat,
    more_slots: nat,
    more_blocks: nat,
)
    requires
        block_ok(b, nslots, nparams, nfuncs, nblocks),
        nslots <= more_slots,
        nblocks <= more_blocks,
    ensures
        block_ok(b, more_slots, nparams, nfuncs, more_blocks),
{
    assert forall|i: int| 0 <= i < b.insts.len() implies #[trigger] inst_ok(
        b.insts,
        i,
        more_slots,
        nparams,
        nfuncs,
    ) by {
        assert(inst_ok(b.insts, i, nslots, nparams, nfuncs));
    }
}

/// Appending an instruction that fits keeps the state in order, and the new
/// instruction is a value unless it is a store.
pub proof fn lemma_emit_ok(st: LoweringState, inst: InstView, nparams: nat, nfuncs: nat)
    requires
        state_ok(st, nparams, nfuncs),
        inst_fits(st, inst, nparams, nfuncs),
    ensures
        state_ok(st.emit(inst), nparams, nfuncs),
        grows(st, st.emit(inst)),
        !(inst is Store) ==> value_ok(st.emit(inst), st.code().len()),
{
    let after = st.emit(inst);
    let cur = st.current as int;
    let code = st.code();
    let longer = code.push(inst);
    let n = code.len() as int;
    assert(after.code() == longer);
    assert(block_ok(st.blocks[cur], st.slots.len(), nparams, nfuncs, st.blocks.len()));
    assert forall|v: nat| operand_ok(code, n, v) implies operand_ok(longer, n, v) && operand_ok(
        longer,
        n + 1,
        v,
    ) by {
        assert(longer[v as int] == code[v as int]);
    }
    assert forall|i: int| 0 <= i < longer.len() implies #[trigger] inst_ok(
        longer,
        i,
        st.slots.len(),
        nparams,
        nfuncs,
    ) by {
        if i < n {
            assert(inst_ok(code, i, st.slots.len(), nparams, nfuncs));
            lemma_push_keeps_inst(code, i, inst, st.slots.len(), nparams, nfuncs);
        } else {
            assert(longer[i] == inst);
            match inst {
                InstView::Call { callee, args } => {
                    assert forall|k: int| 0 <= k < args.len() implies #[trigger] operand_ok(
                        longer,
                        i,
                        args[k],
                    ) by {
                        assert(value_ok(st, args[k]));
                    }
                },
                _ => {},
            }
        }
    }
    assert(term_ok(after.blocks[cur], after.blocks.len()));
    assert forall|b: int| 0 <= b < after.blocks.len() implies block_ok(
        #[trigger] after.blocks[b],
        after.slots.len(),
        nparams,
        nfuncs,
        after.blocks.len(),
    ) by {
        if b != cur {
            assert(after.blocks[b] == st.blocks[b]);
        }
    }
    assert forall|v: nat| #[trigger] value_ok(st, v) implies value_ok(after, v) by {}
}

/// Ending the current block with a terminator that fits keeps the state in order.
pub proof fn lemma_terminate_ok(st: LoweringState, t: TerminatorView, nparams: nat, nfuncs: nat)
    requires
        state_ok(st, nparams, nfuncs),
        term_fits(st, t),
    ensures
        state_ok(st.terminate(t), nparams, nfuncs),
        st.terminate(t).blocks.len() == st.blocks.len(),
        st.terminate(t).slots == st.slots,
        st.terminate(t).current == st.current,
{
    let after = st.terminate(t);
    let cur = st.current as int;
    assert(block_ok(st.blocks[cur], st.slots.len(), nparams, nfuncs, st.blocks.len()));
    assert forall|b: int| 0 <= b < after.blocks.len() implies block_ok(
        #[trigger] after.blocks[b],
        after.slots.len(),
        nparams,
        nfuncs,
        after.blocks.len(),
    ) by {
        if b != cur {
            assert(after.blocks[b] == st.blocks[b]);
        } else {
            assert(after.blocks[b].insts == st.blocks[b].insts);
            assert forall|i: int| 0 <= i < after.blocks[b].insts.len() implies #[trigger] inst_ok(
                after.blocks[b].insts,
                i,
                after.slots.len(),
                nparams,
                nfuncs,
            ) by {
                assert(inst_ok(st.blocks[b].insts, i, st.slots.len(), nparams, nfuncs));
            }
        }
    }
}

/// Appending an empty block keeps the state in order.
pub proof fn lemma_add_block_ok(st: LoweringState, kind: BlockKind, nparams: nat, nfuncs: nat)
    requires
        state_ok(st, nparams, nfuncs),
    ensures
        state_ok(st.add_block(kind), nparams, nfuncs),
        st.add_block(kind).blocks.len() == st.blocks.len() + 1,
        st.add_block(kind).slots == st.slots,
        st.add_block(kind).current == st.current,
        st.add_block(kind).code() == st.code(),
{
    let after = st.add_block(kind);
    assert forall|b: int| 0 <= b < after.blocks.len() implies block_ok(
        #[trigger] after.blocks[b],
        after.slots.len(),
        nparams,
        nfuncs,
        after.blocks.len(),
    ) by {
        if b < st.blocks.len() {
            assert(after.blocks[b] == st.blocks[b]);
            lemma_block_ok_wider(
                st.blocks[b],
                st.slots.len(),
                nparams,
                nfuncs,
                st.blocks.len(),
                st.slots.len(),
                after.blocks.len(),
            );
        } else {
            assert(after.blocks[b] == empty_block(kind));
        }
    }
}

/// Allocating a slot keeps the state in order.
pub proof fn lemma_with_slot_ok(
    st: LoweringState,
    name: Seq<char>,
    ty: LiteralType,
    nparams: nat,
    nfuncs: nat,
)
    requires
        state_ok(st, nparams, nfuncs),
    ensures
        state_ok(st.with_slot(name, ty), nparams, nfuncs),
        st.with_slot(name, ty).slots.len() == st.slots.len() + 1,
        st.with_slot(name, ty).blocks == st.blocks,
        st.with_slot(name, ty).current == st.current,
{
    let after = st.with_slot(name, ty);
    assert forall|b: int| 0 <= b < after.blocks.len() implies block_ok(
        #[trigger] after.blocks[b],
        after.slots.len(),
        nparams,
        nfuncs,
        after.blocks.len(),
    ) by {
        lemma_block_ok_wider(
            st.blocks[b],
            st.slots.len(),
            nparams,
            nfuncs,
            st.blocks.len(),
            after.slots.len(),
            after.blocks.len(),
        );
    }
}

/// The slot that a lookup finds is one of the slots.
pub proof fn lemma_find_slot_bound(slots: Seq<SlotView>, name: Seq<char>, n: int)
    ensures
        find_slot_below(slots, name, n) matches Some(i) ==> i < slots.len() && slots[i as int].name
            == name,
    decreases n,
{
    if n > 0 && n <= slots.len() && slots[n - 1].name != name {
        lemma_find_slot_bound(slots, name, n - 1);
    }
}

/// The function that a lookup finds is one of the functions, it has the name
/// looked for, and no function before it has.
pub proof fn lemma_find_function_bound(names: Seq<Seq<char>>, name: Seq<char>, i: int)
    requires
        0 <= i,
    ensures
        match find_function_from(names, name, i) {
            Some(f) => i <= f < names.len() && names[f as int] == name && forall|j: int|
                i <= j < f ==> names[j] != name,
            None => forall|j: int| i <= j < names.len() ==> names[j] != name,
        },
    decreases names.len() - i,
{
    if i < names.len() && names[i] != name {
        lemma_find_function_bound(names, name, i + 1);
    }
}

/// Lowering an expression keeps the state in order; it only appends to the
/// current block, and what it yields is a value of that block.
pub proof fn lemma_expr_ok(e: Node, funcs: Seq<Seq<char>>, st: LoweringState, nparams: nat)
    requires
        state_ok(st, nparams, funcs.len()),
    ensures
        state_ok(expr_spec(e, funcs, st).state, nparams, funcs.len()),
        grows(st, expr_spec(e, funcs, st).state),
        expr_spec(e, funcs, st).result matches Ok(v) ==> value_ok(expr_spec(e, funcs, st).state, v),
    decreases e, 1nat,
{
    let nfuncs = funcs.len();
    match e {
        Node::NumberLiteral(n) => {
            lemma_emit_ok(st, InstView::ConstInt(n), nparams, nfuncs);
        },
        Node::BoolLiteral(b) => {
            lemma_emit_ok(st, InstView::ConstBool(b), nparams, nfuncs);
        },
        Node::VarRef(name) => {
            lemma_find_slot_bound(st.slots, name@, st.slots.len() as int);
            match find_slot(st.slots, name@) {
                Some(slot) => {
                    lemma_emit_ok(st, InstView::Load(slot), nparams, nfuncs);
                },
                None => {},
            }
        },
        Node::UnaryOp(op, operand) => {
            lemma_expr_ok(*operand, funcs, st, nparams);
            let o = expr_spec(*operand, funcs, st);
            match o.result {
                Err(_) => {},
                Ok(v) => {
                    if op == Opcode::Sub {
                        lemma_emit_ok(o.state, InstView::Neg(v), nparams, nfuncs);
                    }
                },
            }
        },
        Node::BinaryExpr(left, op, right) => {
            lemma_expr_ok(*left, funcs, st, nparams);
            let l = expr_spec(*left, funcs, st);
            match l.result {
                Err(_) => {},
                Ok(lhs) => {
                    lemma_expr_ok(*right, funcs, l.state, nparams);
                    let r = expr_spec(*right, funcs, l.state);
                    match r.result {
                        Err(_) => {},
                        Ok(rhs) => {
                            assert(value_ok(l.state, lhs));
                            assert(value_ok(r.state, lhs));
                            lemma_emit_ok(
                                r.state,
                                InstView::Binary { op: primitive_of(op), lhs, rhs },
                                nparams,
                                nfuncs,
                            );
                        },
                    }
                },
            }
        },
        Node::FuncCall { .. } => {
            lemma_call_ok(e, funcs, st, nparams);
        },
        _ => {},
    }
}

/// Lowering the arguments of a call keeps the state in order, and all the
/// values it collects are values of the current block.
pub proof fn lemma_args_ok(
    args: Seq<Box<Node>>,
    i: int,
    funcs: Seq<Seq<char>>,
    st: LoweringState,
    ids: Seq<nat>,
    nparams: nat,
)
    requires
        0 <= i,
        state_ok(st, nparams, funcs.len()),
        forall|k: int| 0 <= k < ids.len() ==> #[trigger] value_ok(st, ids[k]),
    ensures
        state_ok(args_spec(args, i, funcs, st, ids).state, nparams, funcs.len()),
        grows(st, args_spec(args, i, funcs, st, ids).state),
        args_spec(args, i, funcs, st, ids).result matches Ok(out) ==> forall|k: int|
            0 <= k < out.len() ==> #[trigger] value_ok(
                args_spec(args, i, funcs, st, ids).state,
                out[k],
            ),
    decreases args, args.len() - i,
{
    if i < args.len() {
        lemma_expr_ok(*args[i], funcs, st, nparams);
        let a = expr_spec(*args[i], funcs, st);
        match a.result {
            Err(_) => {},
            Ok(v) => {
                let more = ids.push(v);
                assert forall|k: int| 0 <= k < more.len() implies #[trigger] value_ok(
                    a.state,
                    more[k],
                ) by {
                    if k < ids.len() {
                        assert(value_ok(st, ids[k]));
                    }
                }
                lemma_args_ok(args, i + 1, funcs, a.state, more, nparams);
                let r = args_spec(args, i + 1, funcs, a.state, more);
                assert forall|v2: nat| #[trigger] value_ok(st, v2) implies value_ok(r.state, v2) by {
                    assert(value_ok(a.state, v2));
                }
            },
        }
    }
}

/// Lowering a call keeps the state in order, and the call is a value.
pub proof fn lemma_call_ok(e: Node, funcs: Seq<Seq<char>>, st: LoweringState, nparams: nat)
    requires
        state_ok(st, nparams, funcs.len()),
    ensures
        state_ok(call_spec(e, funcs, st).state, nparams, funcs.len()),
        grows(st, call_spec(e, funcs, st).state),
        call_spec(e, funcs, st).result matches Ok(v) ==> value_ok(call_spec(e, funcs, st).state, v),
    decreases e, 0nat,
{
    match e {
        Node::FuncCall { name, args, next } => {
            let none: Seq<nat> = Seq::empty();
            lemma_args_ok(args@, 0, funcs, st, none, nparams);
            let a = args_spec(args@, 0, funcs, st, none);
            match a.result {
                Err(_) => {},
                Ok(ids) => {
                    lemma_find_function_bound(funcs, name@, 0);
                    match find_function(funcs, name@) {
                        Some(callee) => {
                            lemma_emit_ok(
                                a.state,
                                InstView::Call { callee, args: ids },
                                nparams,
                                funcs.len(),
                            );
                            let r = a.state.emit(InstView::Call { callee, args: ids });
                            assert forall|v2: nat| #[trigger] value_ok(st, v2) implies value_ok(
                                r,
                                v2,
                            ) by {
                                assert(value_ok(a.state, v2));
                            }
                        },
                        None => {},
                    }
                },
            }
        },
        _ => {},
    }
}

/// A terminator fits and the current block may change: both keep the state in order.
proof fn lemma_branch_ok(
    st: LoweringState,
    t: TerminatorView,
    target: nat,
    nparams: nat,
    nfuncs: nat,
)
    requires
        state_ok(st, nparams, nfuncs),
        term_fits(st, t),
        target < st.blocks.len(),
    ensures
        state_ok(st.terminate(t).position_at(target), nparams, nfuncs),
        st.terminate(t).position_at(target).blocks.len() == st.blocks.len(),
{
    lemma_terminate_ok(st, t, nparams, nfuncs);
    let ended = st.terminate(t);
    let after = ended.position_at(target);
    assert forall|b: int| 0 <= b < after.blocks.len() implies block_ok(
        #[trigger] after.blocks[b],
        after.slots.len(),
        nparams,
        nfuncs,
        after.blocks.len(),
    ) by {
        assert(after.blocks[b] == ended.blocks[b]);
    }
}

/// Lowering an `if` keeps the state in order and drops no block.
pub proof fn lemma_if_ok(s: Node, funcs: Seq<Seq<char>>, st: LoweringState, nparams: nat)
    requires
        state_ok(st, nparams, funcs.len()),
    ensures
        state_ok(if_spec(s, funcs, st).state, nparams, funcs.len()),
        if_spec(s, funcs, st).state.blocks.len() >= st.blocks.len(),
    decreases s, 0nat,
{
    let nfuncs = funcs.len();
    match s {
        Node::IfStatement { cond, body, next } => {
            lemma_expr_ok(*cond, funcs, st, nparams);
            let c = expr_spec(*cond, funcs, st);
            match c.result {
                Err(_) => {},
                Ok(v) => {
                    let then_bb = c.state.blocks.len();
                    let cont_bb = then_bb + 1;
                    lemma_add_block_ok(c.state, BlockKind::Then, nparams, nfuncs);
                    let s1 = c.state.add_block(BlockKind::Then);
                    lemma_add_block_ok(s1, BlockKind::IfCont, nparams, nfuncs);
                    let s2 = s1.add_block(BlockKind::IfCont);
                    assert(value_ok(s2, v));
                    let t = TerminatorView::Branch { cond: v, on_true: then_bb, on_false: cont_bb };
                    lemma_branch_ok(s2, t, then_bb, nparams, nfuncs);
                    let entered = s2.terminate(t).position_at(then_bb);
                    lemma_block_ok(*body, funcs, entered, nparams);
                    let b = block_spec(*body, funcs, entered);
                    match b.result {
                        Err(_) => {},
                        Ok(_) => {
                            lemma_branch_ok(
                                b.state,
                                TerminatorView::Jump(cont_bb),
                                cont_bb,
                                nparams,
                                nfuncs,
                            );
                        },
                    }
                },
            }
        },
        _ => {},
    }
}

/// Lowering an `if` with `else` keeps the state in order and drops no block.
pub proof fn lemma_if_else_ok(s: Node, funcs: Seq<Seq<char>>, st: LoweringState, nparams: nat)
    requires
        state_ok(st, nparams, funcs.len()),
    ensures
        state_ok(if_else_spec(s, funcs, st).state, nparams, funcs.len()),
        if_else_spec(s, funcs, st).state.blocks.len() >= st.blocks.len(),
    decreases s, 0nat,
{
    let nfuncs = funcs.len();
    match s {
        Node::IfElseStatement { cond, then_body, else_body, next } => {
            lemma_expr_ok(*cond, funcs, st, nparams);
            let c = expr_spec(*cond, funcs, st);
            match c.result {
                Err(_) => {},
                Ok(v) => {
                    let then_bb = c.state.blocks.len();
                    let else_bb = then_bb + 1;
                    let cont_bb = then_bb + 2;
                    lemma_add_block_ok(c.state, BlockKind::Then, nparams, nfuncs);
                    let s1 = c.state.add_block(BlockKind::Then);
                    lemma_add_block_ok(s1, BlockKind::Else, nparams, nfuncs);
                    let s2 = s1.add_block(BlockKind::Else);
                    lemma_add_block_ok(s2, BlockKind::IfCont, nparams, nfuncs);
                    let s3 = s2.add_block(BlockKind::IfCont);
                    assert(value_ok(s3, v));
                    let t = TerminatorView::Branch { cond: v, on_true: then_bb, on_false: else_bb };
                    lemma_branch_ok(s3, t, then_bb, nparams, nfuncs);
                    let entered = s3.terminate(t).position_at(then_bb);
                    lemma_block_ok(*then_body, funcs, entered, nparams);
                    let tb = block_spec(*then_body, funcs, entered);
                    match tb.result {
                        Err(_) => {},
                        Ok(_) => {
                            lemma_branch_ok(
                                tb.state,
                                TerminatorView::Jump(cont_bb),
                                else_bb,
                                nparams,
                                nfuncs,
                            );
                            let other = tb.state.terminate(TerminatorView::Jump(cont_bb)).position_at(
                                else_bb,
                            );
                            lemma_block_ok(*else_body, funcs, other, nparams);
                            let eb = block_spec(*else_body, funcs, other);
                            match eb.result {
                                Err(_) => {},
                                Ok(_) => {
                                    lemma_branch_ok(
                                        eb.state,
                                        TerminatorView::Jump(cont_bb),
                                        cont_bb,
                                        nparams,
                                        nfuncs,
                                    );
                                },
                            }
                        },
                    }
                },
            }
        },
        _ => {},
    }
}

/// Lowering a `while` keeps the state in order and drops no block.
pub proof fn lemma_while_ok(s: Node, funcs: Seq<Seq<char>>, st: LoweringState, nparams: nat)
    requires
        state_ok(st, nparams, funcs.len()),
    ensures
        state_ok(while_spec(s, funcs, st).state, nparams, funcs.len()),
        while_spec(s, funcs, st).state.blocks.len() >= st.blocks.len(),
    decreases s, 0nat,
{
    let nfuncs = funcs.len();
    match s {
        Node::WhileStatement { cond, body, next } => {
            let cond_bb = st.blocks.len();
            let do_bb = cond_bb + 1;
            let cont_bb = cond_bb + 2;
            lemma_add_block_ok(st, BlockKind::Cond, nparams, nfuncs);
            let s1 = st.add_block(BlockKind::Cond);
            lemma_add_block_ok(s1, BlockKind::Do, nparams, nfuncs);
            let s2 = s1.add_block(BlockKind::Do);
            lemma_add_block_ok(s2, BlockKind::WhileCont, nparams, nfuncs);
            let s3 = s2.add_block(BlockKind::WhileCont);
            lemma_branch_ok(s3, TerminatorView::Jump(cond_bb), cond_bb, nparams, nfuncs);
            let entered = s3.terminate(TerminatorView::Jump(cond_bb)).position_at(cond_bb);
            lemma_expr_ok(*cond, funcs, entered, nparams);
            let c = expr_spec(*cond, funcs, entered);
            match c.result {
                Err(_) => {},
                Ok(v) => {
                    let t = TerminatorView::Branch { cond: v, on_true: do_bb, on_false: cont_bb };
                    lemma_branch_ok(c.state, t, do_bb, nparams, nfuncs);
                    let looping = c.state.terminate(t).position_at(do_bb);
                    lemma_block_ok(*body, funcs, looping, nparams);
                    let b = block_spec(*body, funcs, looping);
                    match b.result {
                        Err(_) => {},
                        Ok(_) => {
                            lemma_branch_ok(
                                b.state,
                                TerminatorView::Jump(cond_bb),
                                cont_bb,
                                nparams,
                                nfuncs,
                            );
                        },
                    }
                },
            }
        },
        _ => {},
    }
}

/// Lowering one statement keeps the state in order and drops no block.
pub proof fn lemma_stmt_ok(s: Node, funcs: Seq<Seq<char>>, st: LoweringState, nparams: nat)
    requires
        state_ok(st, nparams, funcs.len()),
    ensures
        state_ok(stmt_spec(s, funcs, st).state, nparams, funcs.len()),
        stmt_spec(s, funcs, st).state.blocks.len() >= st.blocks.len(),
    decreases s, 1nat,
{
    let nfuncs = funcs.len();
    match s {
        Node::LetStatement { binding, init_expr, next } => match *binding {
            Node::VarBinding(name, ty) => {
                lemma_expr_ok(*init_expr, funcs, st, nparams);
                let e = expr_spec(*init_expr, funcs, st);
                match e.result {
                    Err(_) => {},
                    Ok(value) => {
                        lemma_with_slot_ok(e.state, name@, ty, nparams, nfuncs);
                        let s1 = e.state.with_slot(name@, ty);
                        assert(s1.code() == e.state.code());
                        assert(value_ok(s1, value));
                        lemma_emit_ok(
                            s1,
                            InstView::Store { slot: e.state.slots.len(), value },
                            nparams,
                            nfuncs,
                        );
                    },
                }
            },
            _ => {},
        },
        Node::AssignStatement { var_name, expr, next } => {
            lemma_expr_ok(*expr, funcs, st, nparams);
            let e = expr_spec(*expr, funcs, st);
            match e.result {
                Err(_) => {},
                Ok(value) => {
                    lemma_find_slot_bound(e.state.slots, var_name@, e.state.slots.len() as int);
                    match find_slot(e.state.slots, var_name@) {
                        Some(slot) => {
                            lemma_emit_ok(e.state, InstView::Store { slot, value }, nparams, nfuncs);
                        },
                        None => {},
                    }
                },
            }
        },
        Node::ReturnStatement { expr } => {
            lemma_expr_ok(*expr, funcs, st, nparams);
            let e = expr_spec(*expr, funcs, st);
            match e.result {
                Err(_) => {},
                Ok(value) => {
                    lemma_terminate_ok(
                        e.state,
                        TerminatorView::Return(Some(value)),
                        nparams,
                        nfuncs,
                    );
                },
            }
        },
        Node::IfStatement { .. } => {
            lemma_if_ok(s, funcs, st, nparams);
        },
        Node::IfElseStatement { .. } => {
            lemma_if_else_ok(s, funcs, st, nparams);
        },
        Node::WhileStatement { .. } => {
            lemma_while_ok(s, funcs, st, nparams);
        },
        _ => {},
    }
}

/// Lowering a chain of statements keeps the state in order and drops no block.
pub proof fn lemma_block_ok(s: Node, funcs: Seq<Seq<char>>, st: LoweringState, nparams: nat)
    requires
        state_ok(st, nparams, funcs.len()),
    ensures
        state_ok(block_spec(s, funcs, st).state, nparams, funcs.len()),
        block_spec(s, funcs, st).state.blocks.len() >= st.blocks.len(),
    decreases s, 2nat,
{
    lemma_stmt_ok(s, funcs, st, nparams);
    let first = stmt_spec(s, funcs, st);
    match first.result {
        Err(_) => {},
        Ok(_) => match s.next_of() {
            Some(n) => {
                lemma_block_ok(n, funcs, first.state, nparams);
            },
            None => {},
        },
    }
}

/// Lowering the parameters keeps the state in order, and gives one type for
/// each parameter.
pub proof fn lemma_params_ok(
    params: Seq<Box<Node>>,
    i: int,
    st: LoweringState,
    types: Seq<LiteralType>,
    nfuncs: nat,
)
    requires
        0 <= i <= params.len(),
        types.len() == i,
        state_ok(st, params.len(), nfuncs),
    ensures
        state_ok(params_spec(params, i, st, types).state, params.len(), nfuncs),
        params_spec(params, i, st, types).result matches Ok(all) ==> all.len() == params.len(),
    decreases params.len() - i,
{
    let nparams = params.len();
    if i < params.len() {
        match *params[i] {
            Node::FuncParam { name, declared_type } => {
                let slot = st.slots.len();
                let value = st.code().len();
                lemma_with_slot_ok(st, name@, declared_type, nparams, nfuncs);
                let s1 = st.with_slot(name@, declared_type);
                assert(s1.code() == st.code());
                lemma_emit_ok(s1, InstView::Param(i as nat), nparams, nfuncs);
                let s2 = s1.emit(InstView::Param(i as nat));
                lemma_emit_ok(s2, InstView::Store { slot, value }, nparams, nfuncs);
                let s3 = s2.emit(InstView::Store { slot, value });
                lemma_params_ok(params, i + 1, s3, types.push(declared_type), nfuncs);
            },
            _ => {},
        }
    }
}

/// A function that lowering gives is in order.
pub proof fn lemma_function_ok(decl: Node, funcs: Seq<Seq<char>>)
    ensures
        function_spec(decl, funcs) matches Ok(f) ==> function_ok(f, funcs.len()),
{
    match decl {
        Node::FuncDecl { name, params, return_type, body } => {
            let nparams = params@.len();
            let start = entry_state();
            assert(state_ok(start, nparams, funcs.len())) by {
                assert forall|b: int| 0 <= b < start.blocks.len() implies block_ok(
                    #[trigger] start.blocks[b],
                    start.slots.len(),
                    nparams,
                    funcs.len(),
                    start.blocks.len(),
                ) by {
                    assert(start.blocks[b] == empty_block(BlockKind::Entry));
                }
            }
            let none: Seq<LiteralType> = Seq::empty();
            lemma_params_ok(params@, 0, start, none, funcs.len());
            let p = params_spec(params@, 0, start, none);
            match p.result {
                Err(_) => {},
                Ok(types) => {
                    lemma_block_ok(*body, funcs, p.state, nparams);
                    let b = block_spec(*body, funcs, p.state);
                    match b.result {
                        Err(_) => {},
                        Ok(_) => {
                            lemma_terminate_ok(
                                b.state,
                                TerminatorView::Return(None),
                                nparams,
                                funcs.len(),
                            );
                        },
                    }
                },
            }
        },
        _ => {},
    }
}

/// A function as the first pass registers it is in order, in a table of any size.
pub proof fn lemma_header_ok(decl: Node, nfuncs: nat)
    ensures
        header_spec(decl) matches Ok(f) ==> function_ok(f, nfuncs),
{
    match header_spec(decl) {
        Ok(f) => {
            assert forall|b: int| 0 <= b < f.blocks.len() implies block_ok(
                #[trigger] f.blocks[b],
                f.slots.len(),
                f.sig.params.len(),
                nfuncs,
                f.blocks.len(),
            ) by {
                assert(f.blocks[b] == empty_block(BlockKind::Entry));
            }
        },
        Err(_) => {},
    }
}

/// The first pass gives one entry for each declaration, each of them in order.
pub proof fn lemma_declare_ok(program: Seq<Box<Node>>, i: int, table: Seq<FunctionView>, nfuncs: nat)
    requires
        0 <= i <= program.len(),
        table.len() == i,
        forall|j: int| 0 <= j < table.len() ==> function_ok(#[trigger] table[j], nfuncs),
    ensures
        declare_spec(program, i, table) matches Ok(t) ==> t.len() == program.len() && forall|j: int|
            0 <= j < t.len() ==> function_ok(#[trigger] t[j], nfuncs),
    decreases program.len() - i,
{
    if i < program.len() {
        lemma_header_ok(*program[i], nfuncs);
        match header_spec(*program[i]) {
            Err(_) => {},
            Ok(f) => {
                if find_function(names_of(table), f.sig.name).is_none() {
                    let more = table.push(f);
                    assert forall|j: int| 0 <= j < more.len() implies function_ok(
                        #[trigger] more[j],
                        nfuncs,
                    ) by {
                        if j < table.len() {
                            assert(more[j] == table[j]);
                        }
                    }
                    lemma_declare_ok(program, i + 1, more, nfuncs);
                }
            },
        }
    }
}

/// The second pass keeps every entry of the table in order.
pub proof fn lemma_bodies_ok(program: Seq<Box<Node>>, i: int, table: Seq<FunctionView>)
    requires
        0 <= i,
        table_ok(table),
    ensures
        bodies_spec(program, i, table) matches Ok(t) ==> table_ok(t) && t.len() == table.len(),
    decreases program.len() - i,
{
    if i < program.len() && i < table.len() {
        lemma_function_ok(*program[i], names_of(table));
        match function_spec(*program[i], names_of(table)) {
            Err(_) => {},
            Ok(f) => {
                let next = table.update(i, f);
                assert forall|j: int| 0 <= j < next.len() implies function_ok(
                    #[trigger] next[j],
                    next.len(),
                ) by {
                    if j != i {
                        assert(next[j] == table[j]);
                    }
                }
                lemma_bodies_ok(program, i + 1, next);
            },
        }
    }
}

/// The function table of a lowered program is well formed: in every function,
/// every branch goes to a block of that function, every operand is the value of
/// an earlier instruction of the same block, every slot and parameter that is
/// used exists, and every call names a function of the table.
pub proof fn lemma_lowered_table_is_well_formed(program: Seq<Box<Node>>)
    ensures
        program_spec(program) matches Ok(table) ==> table_ok(table) && table.len()
            == program.len(),
{
    let none: Seq<FunctionView> = Seq::empty();
    match declare_spec(program, 0, none) {
        Err(_) => {},
        Ok(declared) => {
            lemma_declare_ok(program, 0, none, program.len());
            assert(table_ok(declared));
            lemma_bodies_ok(program, 0, declared);
        },
    }
}

/// Lowering is repeatable: two lowerings of one program give the same outcome,
/// and where they give tables, the tables have the same number of blocks in
/// every function and the same edges between them.
pub proof fn lemma_lowering_is_repeatable(
    program: Seq<Box<Node>>,
    first: Result<Seq<FunctionView>, Failure>,
    second: Result<Seq<FunctionView>, Failure>,
)
    requires
        first == program_spec(program),
        second == program_spec(program),
    ensures
        first == second,
        first matches Ok(a) ==> second matches Ok(b) && block_counts(a) == block_counts(b) && edges(
            a,
        ) == edges(b),
{
}

/// The name that a declaration gives its function.
pub open spec fn declared_name(decl: Node) -> Seq<char> {
    match decl {
        Node::FuncDecl { name, .. } => name@,
        _ => Seq::empty(),
    }
}

/// The table holds the first `n` declarations of the program under their
/// names, each name once.
pub open spec fn registered(program: Seq<Box<Node>>, table: Seq<FunctionView>, n: int) -> bool {
    &&& table.len() == n
    &&& n <= program.len()
    &&& forall|j: int| 0 <= j < n ==> (#[trigger] table[j]).sig.name == declared_name(*program[j])
    &&& forall|j: int, k: int|
        0 <= j < k < n ==> (#[trigger] table[j]).sig.name != (#[trigger] table[k]).sig.name
}

/// The first pass registers every declaration under its name, each name once.
pub proof fn lemma_declare_registers(program: Seq<Box<Node>>, i: int, table: Seq<FunctionView>)
    requires
        0 <= i,
        registered(program, table, i),
    ensures
        declare_spec(program, i, table) matches Ok(t) ==> registered(
            program,
            t,
            program.len() as int,
        ),
    decreases program.len() - i,
{
    if i < program.len() {
        match header_spec(*program[i]) {
            Err(_) => {},
            Ok(f) => {
                lemma_find_function_bound(names_of(table), f.sig.name, 0);
                if find_function(names_of(table), f.sig.name).is_none() {
                    let more = table.push(f);
                    assert forall|j: int| 0 <= j < i + 1 implies (#[trigger] more[j]).sig.name
                        == declared_name(*program[j]) by {
                        if j < i {
                            assert(more[j] == table[j]);
                        }
                    }
                    assert forall|j: int, k: int| 0 <= j < k < i + 1 implies (#[trigger] more[j]).sig.name
                        != (#[trigger] more[k]).sig.name by {
                        assert(more[j] == table[j]);
                        assert(names_of(table)[j] == table[j].sig.name);
                        if k < i {
                            assert(more[k] == table[k]);
                        }
                    }
                    lemma_declare_registers(program, i + 1, more);
                }
            },
        }
    }
}

/// The second pass changes no name of the table.
pub proof fn lemma_bodies_keep_names(program: Seq<Box<Node>>, i: int, table: Seq<FunctionView>)
    requires
        0 <= i,
        registered(program, table, program.len() as int),
    ensures
        bodies_spec(program, i, table) matches Ok(t) ==> registered(
            program,
            t,
            program.len() as int,
        ),
    decreases program.len() - i,
{
    if i < program.len() && i < table.len() {
        match function_spec(*program[i], names_of(table)) {
            Err(_) => {},
            Ok(f) => {
                let next = table.update(i, f);
                assert(f.sig.name == declared_name(*program[i]));
                assert(table[i].sig.name == f.sig.name);
                assert forall|j: int| 0 <= j < next.len() implies (#[trigger] next[j]).sig.name
                    == table[j].sig.name by {}
                assert forall|j: int, k: int| 0 <= j < k < next.len() implies (#[trigger] next[j]).sig.name
                    != (#[trigger] next[k]).sig.name by {
                    assert(table[j].sig.name != table[k].sig.name);
                }
                lemma_bodies_keep_names(program, i + 1, next);
            },
        }
    }
}

/// In the table of a lowered program every declared function is found under
/// its name, at the index of its declaration. A call therefore reaches its
/// callee whether the callee is declared before the caller or after it.
pub proof fn lemma_declared_functions_resolve(program: Seq<Box<Node>>, i: int)
    requires
        0 <= i < program.len(),
    ensures
        program_spec(program) matches Ok(table) ==> find_function(
            names_of(table),
            declared_name(*program[i]),
        ) == Some(i as nat),
{
    let none: Seq<FunctionView> = Seq::empty();
    match declare_spec(program, 0, none) {
        Err(_) => {},
        Ok(declared) => {
            lemma_declare_registers(program, 0, none);
            lemma_bodies_keep_names(program, 0, declared);
            match bodies_spec(program, 0, declared) {
                Err(_) => {},
                Ok(table) => {
                    let names = names_of(table);
                    let name = declared_name(*program[i]);
                    lemma_find_function_bound(names, name, 0);
                    assert(names[i] == table[i].sig.name);
                    match find_function(names, name) {
                        Some(f) => {
                            assert(names[f as int] == table[f as int].sig.name);
                        },
                        None => {},
                    }
                },
            }
        },
    }
}

} // verus!
