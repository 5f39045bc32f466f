//! Calls and the order of declarations: a call fails for want of its callee
//! only where no declaration gives the callee's name, and the graph of a
//! function does not depend on where in the program its declaration stands.

use vstd::prelude::*;
use crate::ast::{LiteralType, Node};
use crate::cfg::{
    names_of, primitive_of, successors, BlockKind, BlockView, FunctionView, InstView, SlotView,
    TerminatorView,
};
use crate::error::Failure;
use crate::laws::{
    declared_name, lemma_args_ok, lemma_declare_registers, lemma_find_function_bound, registered,
    state_ok,
};
use crate::lowering::{
    args_spec, block_spec, bodies_spec, call_spec, declare_spec, empty_block, entry_state,
    expr_spec, find_function, find_slot, function_spec, header_spec, if_else_spec, if_spec,
    param_types_spec, params_spec, program_spec, stmt_spec, while_spec, LoweringState,
};

verus! {

/// Where the failure is that of an unknown function, no function has its name.
pub open spec fn unknown_is_absent<T>(r: Result<T, Failure>, funcs: Seq<Seq<char>>) -> bool {
    r matches Err(Failure::UnknownFunction(n)) ==> find_function(funcs, n) is None
}

/// Lowering an expression fails for want of a function only where the table
/// holds none of that name.
pub proof fn lemma_expr_unknown(e: Node, funcs: Seq<Seq<char>>, st: LoweringState)
    ensures
        unknown_is_absent(expr_spec(e, funcs, st).result, funcs),
    decreases e, 1nat,
{
    match e {
        Node::UnaryOp(op, operand) => {
            lemma_expr_unknown(*operand, funcs, st);
        },
        Node::BinaryExpr(left, op, right) => {
            lemma_expr_unknown(*left, funcs, st);
            let l = expr_spec(*left, funcs, st);
            if l.result is Ok {
                lemma_expr_unknown(*right, funcs, l.state);
            }
        },
        Node::FuncCall { .. } => {
            lemma_call_unknown(e, funcs, st);
        },
        _ => {},
    }
}

/// The same, of the arguments of a call.
pub proof fn lemma_args_unknown(
    args: Seq<Box<Node>>,
    i: int,
    funcs: Seq<Seq<char>>,
    st: LoweringState,
    ids: Seq<nat>,
)
    ensures
        unknown_is_absent(args_spec(args, i, funcs, st, ids).result, funcs),
    decreases args, args.len() - i,
{
    if 0 <= i < args.len() {
        lemma_expr_unknown(*args[i], funcs, st);
        let a = expr_spec(*args[i], funcs, st);
        match a.result {
            Ok(v) => {
                lemma_args_unknown(args, i + 1, funcs, a.state, ids.push(v));
            },
            Err(_) => {},
        }
    }
}

/// The same, of a call.
pub proof fn lemma_call_unknown(e: Node, funcs: Seq<Seq<char>>, st: LoweringState)
    ensures
        unknown_is_absent(call_spec(e, funcs, st).result, funcs),
    decreases e, 0nat,
{
    match e {
        Node::FuncCall { name, args, next } => {
            lemma_args_unknown(args@, 0, funcs, st, Seq::empty());
        },
        _ => {},
    }
}

/// The same, of an `if`.
pub proof fn lemma_if_unknown(s: Node, funcs: Seq<Seq<char>>, st: LoweringState)
    ensures
        unknown_is_absent(if_spec(s, funcs, st).result, funcs),
    decreases s, 0nat,
{
    match s {
        Node::IfStatement { cond, body, next } => {
            lemma_expr_unknown(*cond, funcs, st);
            let c = expr_spec(*cond, funcs, st);
            match c.result {
                Ok(v) => {
                    let then_bb = c.state.blocks.len();
                    let cont_bb = then_bb + 1;
                    let entered = c.state.add_block(BlockKind::Then).add_block(
                        BlockKind::IfCont,
                    ).terminate(
                        TerminatorView::Branch {
                            cond: v,
                            on_true: then_bb,
                            on_false: cont_bb,
                        },
                    ).position_at(then_bb);
                    lemma_block_unknown(*body, funcs, entered);
                },
                Err(_) => {},
            }
        },
        _ => {},
    }
}

/// The same, of an `if` with `else`.
pub proof fn lemma_if_else_unknown(s: Node, funcs: Seq<Seq<char>>, st: LoweringState)
    ensures
        unknown_is_absent(if_else_spec(s, funcs, st).result, funcs),
    decreases s, 0nat,
{
    match s {
        Node::IfElseStatement { cond, then_body, else_body, next } => {
            lemma_expr_unknown(*cond, funcs, st);
            let c = expr_spec(*cond, funcs, st);
            match c.result {
                Ok(v) => {
                    let then_bb = c.state.blocks.len();
                    let else_bb = then_bb + 1;
                    let cont_bb = then_bb + 2;
                    let entered = c.state.add_block(BlockKind::Then).add_block(
                        BlockKind::Else,
                    ).add_block(BlockKind::IfCont).terminate(
                        TerminatorView::Branch {
                            cond: v,
                            on_true: then_bb,
                            on_false: else_bb,
                        },
                    ).position_at(then_bb);
                    lemma_block_unknown(*then_body, funcs, entered);
                    let t = block_spec(*then_body, funcs, entered);
                    if t.result is Ok {
                        lemma_block_unknown(
                            *else_body,
                            funcs,
                            t.state.terminate(TerminatorView::Jump(cont_bb)).position_at(
                                else_bb,
                            ),
                        );
                    }
                },
                Err(_) => {},
            }
        },
        _ => {},
    }
}

/// The same, of a `while`.
pub proof fn lemma_while_unknown(s: Node, funcs: Seq<Seq<char>>, st: LoweringState)
    ensures
        unknown_is_absent(while_spec(s, funcs, st).result, funcs),
    decreases s, 0nat,
{
    match s {
        Node::WhileStatement { cond, body, next } => {
            let cond_bb = st.blocks.len();
            let do_bb = cond_bb + 1;
            let cont_bb = cond_bb + 2;
            let entered = st.add_block(BlockKind::Cond).add_block(
                BlockKind::Do,
            ).add_block(BlockKind::WhileCont).terminate(
                TerminatorView::Jump(cond_bb),
            ).position_at(cond_bb);
            lemma_expr_unknown(*cond, funcs, entered);
            let c = expr_spec(*cond, funcs, entered);
            match c.result {
                Ok(v) => {
                    lemma_block_unknown(
                        *body,
                        funcs,
                        c.state.terminate(
                            TerminatorView::Branch {
                                cond: v,
                                on_true: do_bb,
                                on_false: cont_bb,
                            },
                        ).position_at(do_bb),
                    );
                },
                Err(_) => {},
            }
        },
        _ => {},
    }
}

/// The same, of one statement.
pub proof fn lemma_stmt_unknown(s: Node, funcs: Seq<Seq<char>>, st: LoweringState)
    ensures
        unknown_is_absent(stmt_spec(s, funcs, st).result, funcs),
    decreases s, 1nat,
{
    match s {
        Node::LetStatement { binding, init_expr, next } => {
            lemma_expr_unknown(*init_expr, funcs, st);
        },
        Node::AssignStatement { var_name, expr, next } => {
            lemma_expr_unknown(*expr, funcs, st);
        },
        Node::ReturnStatement { expr } => {
            lemma_expr_unknown(*expr, funcs, st);
        },
        Node::IfStatement { .. } => {
            lemma_if_unknown(s, funcs, st);
        },
        Node::IfElseStatement { .. } => {
            lemma_if_else_unknown(s, funcs, st);
        },
        Node::WhileStatement { .. } => {
            lemma_while_unknown(s, funcs, st);
        },
        _ => {},
    }
}

/// The same, of a chain of statements.
pub proof fn lemma_block_unknown(s: Node, funcs: Seq<Seq<char>>, st: LoweringState)
    ensures
        unknown_is_absent(block_spec(s, funcs, st).result, funcs),
    decreases s, 2nat,
{
    lemma_stmt_unknown(s, funcs, st);
    let first = stmt_spec(s, funcs, st);
    if first.result is Ok {
        match s.next_of() {
            Some(n) => {
                lemma_block_unknown(n, funcs, first.state);
            },
            None => {},
        }
    }
}

/// Lowering parameters fails over an odd node only.
pub proof fn lemma_params_fail_on_nodes(
    params: Seq<Box<Node>>,
    i: int,
    st: LoweringState,
    types: Seq<LiteralType>,
)
    ensures
        params_spec(params, i, st, types).result matches Err(f) ==> f is UnsupportedNode,
        param_types_spec(params, i, types) matches Err(f) ==> f is UnsupportedNode,
        params_spec(params, i, st, types).result is Ok <==> param_types_spec(params, i, types) is Ok,
    decreases params.len() - i,
{
    if 0 <= i < params.len() {
        match *params[i] {
            Node::FuncParam { name, declared_type } => {
                let slot = st.slots.len();
                let value = st.code().len();
                lemma_params_fail_on_nodes(
                    params,
                    i + 1,
                    st.with_slot(name@, declared_type).emit(InstView::Param(i as nat)).emit(
                        InstView::Store { slot, value },
                    ),
                    types.push(declared_type),
                );
            },
            _ => {},
        }
    }
}

/// Lowering a function fails for want of a function only where the table
/// holds none of that name.
pub proof fn lemma_function_unknown(decl: Node, funcs: Seq<Seq<char>>)
    ensures
        unknown_is_absent(function_spec(decl, funcs), funcs),
{
    match decl {
        Node::FuncDecl { name, params, return_type, body } => {
            lemma_params_fail_on_nodes(params@, 0, entry_state(), Seq::empty());
            let p = params_spec(params@, 0, entry_state(), Seq::empty());
            if p.result is Ok {
                lemma_block_unknown(*body, funcs, p.state);
            }
        },
        _ => {},
    }
}

/// The first pass fails over an odd node or a name declared twice, and over
/// nothing else.
pub proof fn lemma_declare_failures(program: Seq<Box<Node>>, i: int, table: Seq<FunctionView>)
    ensures
        declare_spec(program, i, table) matches Err(f) ==> f is UnsupportedNode || f
            is DuplicateFunction,
    decreases program.len() - i,
{
    if 0 <= i < program.len() {
        match *program[i] {
            Node::FuncDecl { name, params, return_type, body } => {
                lemma_params_fail_on_nodes(params@, 0, entry_state(), Seq::empty());
            },
            _ => {},
        }
        match header_spec(*program[i]) {
            Ok(f) => {
                lemma_declare_failures(program, i + 1, table.push(f));
            },
            Err(_) => {},
        }
    }
}

/// What the second pass gives, entry by entry: on success every entry from
/// `i` on is the lowering of its declaration against the names of the table,
/// and no name has changed; a failure is the failure of one such lowering.
pub proof fn lemma_bodies_entries(program: Seq<Box<Node>>, i: int, table: Seq<FunctionView>)
    requires
        0 <= i,
        registered(program, table, program.len() as int),
    ensures
        match bodies_spec(program, i, table) {
            Ok(t) => {
                &&& registered(program, t, program.len() as int)
                &&& names_of(t) == names_of(table)
                &&& forall|j: int|
                    i <= j < program.len() ==> #[trigger] function_spec(
                        *program[j],
                        names_of(table),
                    ) == Ok::<FunctionView, Failure>(t[j])
                &&& forall|j: int| 0 <= j < i && j < table.len() ==> #[trigger] t[j] == table[j]
            },
            Err(e) => exists|j: int|
                i <= j < program.len() && #[trigger] function_spec(*program[j], names_of(table))
                    == Err::<FunctionView, Failure>(e),
        },
    decreases program.len() - i,
{
    if i < program.len() {
        let names = names_of(table);
        match function_spec(*program[i], names) {
            Err(e) => {},
            Ok(f) => {
                let next = table.update(i, f);
                assert(f.sig.name == declared_name(*program[i]));
                assert(table[i].sig.name == f.sig.name);
                assert(names_of(next) =~= names);
                assert forall|j: int| 0 <= j < next.len() implies (#[trigger] next[j]).sig.name
                    == table[j].sig.name by {}
                assert forall|j: int, k: int| 0 <= j < k < next.len() implies (#[trigger] next[j]).sig.name
                    != (#[trigger] next[k]).sig.name by {
                    assert(table[j].sig.name != table[k].sig.name);
                }
                lemma_bodies_entries(program, i + 1, next);
                match bodies_spec(program, i + 1, next) {
                    Ok(t) => {
                        assert(t[i] == next[i]);
                    },
                    Err(e) => {},
                }
            },
        }
    } else {
        assert(names_of(table) =~= names_of(table));
    }
}

/// What lowering a program gives, entry by entry: every entry of the table is
/// the lowering of the declaration at its index against the names of the whole
/// table, and stands under the declaration's name.
pub proof fn lemma_program_entries(program: Seq<Box<Node>>)
    ensures
        program_spec(program) matches Ok(t) ==> {
            &&& registered(program, t, program.len() as int)
            &&& forall|j: int|
                0 <= j < program.len() ==> #[trigger] function_spec(*program[j], names_of(t))
                    == Ok::<FunctionView, Failure>(t[j])
        },
{
    let none: Seq<FunctionView> = Seq::empty();
    match declare_spec(program, 0, none) {
        Ok(declared) => {
            lemma_declare_registers(program, 0, none);
            lemma_bodies_entries(program, 0, declared);
        },
        Err(_) => {},
    }
}

/// Lowering a program fails for want of a function only where no declaration
/// of the program gives that name. So a program in which every call names a
/// declared function never fails with `UnknownFunction`, wherever the callee is
/// declared: before the caller, after it, or as the caller itself.
pub proof fn lemma_unknown_function_is_undeclared(program: Seq<Box<Node>>, i: int)
    requires
        0 <= i < program.len(),
    ensures
        program_spec(program) matches Err(Failure::UnknownFunction(n)) ==> declared_name(
            *program[i],
        ) != n,
{
    let none: Seq<FunctionView> = Seq::empty();
    lemma_declare_failures(program, 0, none);
    match declare_spec(program, 0, none) {
        Ok(declared) => {
            lemma_declare_registers(program, 0, none);
            lemma_bodies_entries(program, 0, declared);
            match bodies_spec(program, 0, declared) {
                Err(Failure::UnknownFunction(n)) => {
                    let names = names_of(declared);
                    let j = choose|j: int|
                        0 <= j < program.len() && #[trigger] function_spec(*program[j], names)
                            == Err::<FunctionView, Failure>(Failure::UnknownFunction(n));
                    lemma_function_unknown(*program[j], names);
                    lemma_find_function_bound(names, n, 0);
                    assert(names[i] == declared[i].sig.name);
                },
                _ => {},
            }
        },
        Err(_) => {},
    }
}

/// Two lists of names hold the same names.
pub open spec fn same_names(f1: Seq<Seq<char>>, f2: Seq<Seq<char>>) -> bool {
    forall|n: Seq<char>|
        #![trigger find_function(f1, n)]
        #![trigger find_function(f2, n)]
        find_function(f1, n) is Some <==> find_function(f2, n) is Some
}

/// Two instructions are the same but for the handle of a callee: two calls are
/// the same where they pass the same arguments to functions of one name.
pub open spec fn same_inst(a: InstView, b: InstView, f1: Seq<Seq<char>>, f2: Seq<Seq<char>>) -> bool {
    match (a, b) {
        (
            InstView::Call { callee: c1, args: a1 },
            InstView::Call { callee: c2, args: a2 },
        ) => a1 == a2 && c1 < f1.len() && c2 < f2.len() && f1[c1 as int] == f2[c2 as int],
        _ => a == b,
    }
}

/// Two blocks are of one kind, end alike, and hold the same instructions.
pub open spec fn same_block(a: BlockView, b: BlockView, f1: Seq<Seq<char>>, f2: Seq<Seq<char>>) -> bool {
    &&& a.kind == b.kind
    &&& a.term == b.term
    &&& a.insts.len() == b.insts.len()
    &&& forall|i: int| 0 <= i < a.insts.len() ==> same_inst(#[trigger] a.insts[i], b.insts[i], f1, f2)
}

/// Two lists of blocks hold the same blocks, in the same order.
pub open spec fn same_blocks(
    a: Seq<BlockView>,
    b: Seq<BlockView>,
    f1: Seq<Seq<char>>,
    f2: Seq<Seq<char>>,
) -> bool {
    &&& a.len() == b.len()
    &&& forall|i: int| 0 <= i < a.len() ==> same_block(#[trigger] a[i], b[i], f1, f2)
}

/// Two states of lowering differ in the handles of callees at most.
pub open spec fn alike(s1: LoweringState, s2: LoweringState, f1: Seq<Seq<char>>, f2: Seq<Seq<char>>) -> bool {
    &&& s1.slots == s2.slots
    &&& s1.current == s2.current
    &&& same_blocks(s1.blocks, s2.blocks, f1, f2)
}

/// Two functions have one signature, the same slots and the same graph; they
/// differ in the handles of callees at most.
pub open spec fn same_function(
    a: FunctionView,
    b: FunctionView,
    f1: Seq<Seq<char>>,
    f2: Seq<Seq<char>>,
) -> bool {
    &&& a.sig == b.sig
    &&& a.slots == b.slots
    &&& same_blocks(a.blocks, b.blocks, f1, f2)
}

proof fn lemma_alike_emit(
    s1: LoweringState,
    s2: LoweringState,
    i1: InstView,
    i2: InstView,
    f1: Seq<Seq<char>>,
    f2: Seq<Seq<char>>,
)
    requires
        alike(s1, s2, f1, f2),
        same_inst(i1, i2, f1, f2),
    ensures
        alike(s1.emit(i1), s2.emit(i2), f1, f2),
        s1.code().len() == s2.code().len(),
{
    let cur = s1.current as int;
    if s1.current < s1.blocks.len() {
        let b1 = s1.blocks[cur];
        let b2 = s2.blocks[cur];
        assert(same_block(b1, b2, f1, f2));
        let n1 = s1.emit(i1).blocks;
        let n2 = s2.emit(i2).blocks;
        assert forall|b: int| 0 <= b < n1.len() implies same_block(#[trigger] n1[b], n2[b], f1, f2) by {
            if b == cur {
                assert forall|i: int| 0 <= i < n1[b].insts.len() implies same_inst(
                    #[trigger] n1[b].insts[i],
                    n2[b].insts[i],
                    f1,
                    f2,
                ) by {
                    if i < b1.insts.len() {
                        assert(same_inst(b1.insts[i], b2.insts[i], f1, f2));
                    }
                }
            } else {
                assert(same_block(s1.blocks[b], s2.blocks[b], f1, f2));
            }
        }
    }
}

proof fn lemma_alike_branch(
    s1: LoweringState,
    s2: LoweringState,
    t: TerminatorView,
    target: nat,
    f1: Seq<Seq<char>>,
    f2: Seq<Seq<char>>,
)
    requires
        alike(s1, s2, f1, f2),
    ensures
        alike(s1.terminate(t), s2.terminate(t), f1, f2),
        alike(s1.terminate(t).position_at(target), s2.terminate(t).position_at(target), f1, f2),
        alike(s1.position_at(target), s2.position_at(target), f1, f2),
        s1.terminate(t).blocks.len() == s1.blocks.len(),
{
    let cur = s1.current as int;
    let n1 = s1.terminate(t).blocks;
    let n2 = s2.terminate(t).blocks;
    if s1.current < s1.blocks.len() {
        assert(same_block(s1.blocks[cur], s2.blocks[cur], f1, f2));
    }
    assert forall|b: int| 0 <= b < n1.len() implies same_block(#[trigger] n1[b], n2[b], f1, f2) by {
        assert(same_block(s1.blocks[b], s2.blocks[b], f1, f2));
        if b == cur && s1.blocks[cur].term.is_none() {
            assert forall|i: int| 0 <= i < n1[b].insts.len() implies same_inst(
                #[trigger] n1[b].insts[i],
                n2[b].insts[i],
                f1,
                f2,
            ) by {
                assert(same_inst(s1.blocks[b].insts[i], s2.blocks[b].insts[i], f1, f2));
            }
        }
    }
}

proof fn lemma_alike_add_block(
    s1: LoweringState,
    s2: LoweringState,
    kind: BlockKind,
    f1: Seq<Seq<char>>,
    f2: Seq<Seq<char>>,
)
    requires
        alike(s1, s2, f1, f2),
    ensures
        alike(s1.add_block(kind), s2.add_block(kind), f1, f2),
        s1.add_block(kind).blocks.len() == s1.blocks.len() + 1,
        s1.blocks.len() == s2.blocks.len(),
{
    let n1 = s1.add_block(kind).blocks;
    let n2 = s2.add_block(kind).blocks;
    assert forall|b: int| 0 <= b < n1.len() implies same_block(#[trigger] n1[b], n2[b], f1, f2) by {
        if b < s1.blocks.len() {
            assert(same_block(s1.blocks[b], s2.blocks[b], f1, f2));
        } else {
            assert(n1[b] == empty_block(kind));
            assert(n2[b] == empty_block(kind));
        }
    }
}

proof fn lemma_alike_with_slot(
    s1: LoweringState,
    s2: LoweringState,
    name: Seq<char>,
    ty: LiteralType,
    f1: Seq<Seq<char>>,
    f2: Seq<Seq<char>>,
)
    requires
        alike(s1, s2, f1, f2),
    ensures
        alike(s1.with_slot(name, ty), s2.with_slot(name, ty), f1, f2),
{
}

/// An expression lowers alike against two tables of the same names: with the
/// same outcome, and into states that differ in the handles of callees at most.
pub proof fn lemma_expr_alike(
    e: Node,
    f1: Seq<Seq<char>>,
    f2: Seq<Seq<char>>,
    s1: LoweringState,
    s2: LoweringState,
)
    requires
        alike(s1, s2, f1, f2),
        same_names(f1, f2),
    ensures
        expr_spec(e, f1, s1).result == expr_spec(e, f2, s2).result,
        alike(expr_spec(e, f1, s1).state, expr_spec(e, f2, s2).state, f1, f2),
    decreases e, 1nat,
{
    match e {
        Node::NumberLiteral(n) => {
            lemma_alike_emit(s1, s2, InstView::ConstInt(n), InstView::ConstInt(n), f1, f2);
        },
        Node::BoolLiteral(b) => {
            lemma_alike_emit(s1, s2, InstView::ConstBool(b), InstView::ConstBool(b), f1, f2);
        },
        Node::VarRef(name) => {
            match find_slot(s1.slots, name@) {
                Some(slot) => {
                    lemma_alike_emit(s1, s2, InstView::Load(slot), InstView::Load(slot), f1, f2);
                },
                None => {},
            }
        },
        Node::UnaryOp(op, operand) => {
            lemma_expr_alike(*operand, f1, f2, s1, s2);
            let o1 = expr_spec(*operand, f1, s1);
            let o2 = expr_spec(*operand, f2, s2);
            match o1.result {
                Ok(v) => {
                    lemma_alike_emit(o1.state, o2.state, InstView::Neg(v), InstView::Neg(v), f1, f2);
                },
                Err(_) => {},
            }
        },
        Node::BinaryExpr(left, op, right) => {
            lemma_expr_alike(*left, f1, f2, s1, s2);
            let l1 = expr_spec(*left, f1, s1);
            let l2 = expr_spec(*left, f2, s2);
            match l1.result {
                Ok(lhs) => {
                    lemma_expr_alike(*right, f1, f2, l1.state, l2.state);
                    let r1 = expr_spec(*right, f1, l1.state);
                    let r2 = expr_spec(*right, f2, l2.state);
                    match r1.result {
                        Ok(rhs) => {
                            let inst = InstView::Binary { op: primitive_of(op), lhs, rhs };
                            lemma_alike_emit(r1.state, r2.state, inst, inst, f1, f2);
                        },
                        Err(_) => {},
                    }
                },
                Err(_) => {},
            }
        },
        Node::FuncCall { .. } => {
            lemma_call_alike(e, f1, f2, s1, s2);
        },
        _ => {},
    }
}

/// The same, of the arguments of a call.
pub proof fn lemma_args_alike(
    args: Seq<Box<Node>>,
    i: int,
    f1: Seq<Seq<char>>,
    f2: Seq<Seq<char>>,
    s1: LoweringState,
    s2: LoweringState,
    ids: Seq<nat>,
)
    requires
        alike(s1, s2, f1, f2),
        same_names(f1, f2),
    ensures
        args_spec(args, i, f1, s1, ids).result == args_spec(args, i, f2, s2, ids).result,
        alike(args_spec(args, i, f1, s1, ids).state, args_spec(args, i, f2, s2, ids).state, f1, f2),
    decreases args, args.len() - i,
{
    if 0 <= i < args.len() {
        lemma_expr_alike(*args[i], f1, f2, s1, s2);
        let a1 = expr_spec(*args[i], f1, s1);
        let a2 = expr_spec(*args[i], f2, s2);
        match a1.result {
            Ok(v) => {
                lemma_args_alike(args, i + 1, f1, f2, a1.state, a2.state, ids.push(v));
            },
            Err(_) => {},
        }
    }
}

/// The same, of a call.
pub proof fn lemma_call_alike(
    e: Node,
    f1: Seq<Seq<char>>,
    f2: Seq<Seq<char>>,
    s1: LoweringState,
    s2: LoweringState,
)
    requires
        alike(s1, s2, f1, f2),
        same_names(f1, f2),
    ensures
        call_spec(e, f1, s1).result == call_spec(e, f2, s2).result,
        alike(call_spec(e, f1, s1).state, call_spec(e, f2, s2).state, f1, f2),
    decreases e, 0nat,
{
    match e {
        Node::FuncCall { name, args, next } => {
            let none: Seq<nat> = Seq::empty();
            lemma_args_alike(args@, 0, f1, f2, s1, s2, none);
            let a1 = args_spec(args@, 0, f1, s1, none);
            let a2 = args_spec(args@, 0, f2, s2, none);
            match a1.result {
                Ok(ids) => {
                    lemma_find_function_bound(f1, name@, 0);
                    lemma_find_function_bound(f2, name@, 0);
                    match (find_function(f1, name@), find_function(f2, name@)) {
                        (Some(c1), Some(c2)) => {
                            lemma_alike_emit(
                                a1.state,
                                a2.state,
                                InstView::Call { callee: c1, args: ids },
                                InstView::Call { callee: c2, args: ids },
                                f1,
                                f2,
                            );
                        },
                        _ => {},
                    }
                },
                Err(_) => {},
            }
        },
        _ => {},
    }
}

/// The same, of an `if`.
pub proof fn lemma_if_alike(
    s: Node,
    f1: Seq<Seq<char>>,
    f2: Seq<Seq<char>>,
    s1: LoweringState,
    s2: LoweringState,
)
    requires
        alike(s1, s2, f1, f2),
        same_names(f1, f2),
    ensures
        if_spec(s, f1, s1).result == if_spec(s, f2, s2).result,
        alike(if_spec(s, f1, s1).state, if_spec(s, f2, s2).state, f1, f2),
    decreases s, 0nat,
{
    match s {
        Node::IfStatement { cond, body, next } => {
            lemma_expr_alike(*cond, f1, f2, s1, s2);
            let c1 = expr_spec(*cond, f1, s1);
            let c2 = expr_spec(*cond, f2, s2);
            match c1.result {
                Ok(v) => {
                    let then_bb = c1.state.blocks.len();
                    let cont_bb = then_bb + 1;
                    let t = TerminatorView::Branch { cond: v, on_true: then_bb, on_false: cont_bb };
                    lemma_alike_add_block(c1.state, c2.state, BlockKind::Then, f1, f2);
                    let a1 = c1.state.add_block(BlockKind::Then);
                    let a2 = c2.state.add_block(BlockKind::Then);
                    lemma_alike_add_block(a1, a2, BlockKind::IfCont, f1, f2);
                    let b1 = a1.add_block(BlockKind::IfCont);
                    let b2 = a2.add_block(BlockKind::IfCont);
                    lemma_alike_branch(b1, b2, t, then_bb, f1, f2);
                    let e1 = b1.terminate(t).position_at(then_bb);
                    let e2 = b2.terminate(t).position_at(then_bb);
                    lemma_block_alike(*body, f1, f2, e1, e2);
                    let r1 = block_spec(*body, f1, e1);
                    let r2 = block_spec(*body, f2, e2);
                    lemma_alike_branch(r1.state, r2.state, TerminatorView::Jump(cont_bb), cont_bb, f1, f2);
                },
                Err(_) => {},
            }
        },
        _ => {},
    }
}

/// The same, of an `if` with `else`.
pub proof fn lemma_if_else_alike(
    s: Node,
    f1: Seq<Seq<char>>,
    f2: Seq<Seq<char>>,
    s1: LoweringState,
    s2: LoweringState,
)
    requires
        alike(s1, s2, f1, f2),
        same_names(f1, f2),
    ensures
        if_else_spec(s, f1, s1).result == if_else_spec(s, f2, s2).result,
        alike(if_else_spec(s, f1, s1).state, if_else_spec(s, f2, s2).state, f1, f2),
    decreases s, 0nat,
{
    match s {
        Node::IfElseStatement { cond, then_body, else_body, next } => {
            lemma_expr_alike(*cond, f1, f2, s1, s2);
            let c1 = expr_spec(*cond, f1, s1);
            let c2 = expr_spec(*cond, f2, s2);
            match c1.result {
                Ok(v) => {
                    let then_bb = c1.state.blocks.len();
                    let else_bb = then_bb + 1;
                    let cont_bb = then_bb + 2;
                    let t = TerminatorView::Branch { cond: v, on_true: then_bb, on_false: else_bb };
                    lemma_alike_add_block(c1.state, c2.state, BlockKind::Then, f1, f2);
                    let a1 = c1.state.add_block(BlockKind::Then);
                    let a2 = c2.state.add_block(BlockKind::Then);
                    lemma_alike_add_block(a1, a2, BlockKind::Else, f1, f2);
                    let b1 = a1.add_block(BlockKind::Else);
                    let b2 = a2.add_block(BlockKind::Else);
                    lemma_alike_add_block(b1, b2, BlockKind::IfCont, f1, f2);
                    let d1 = b1.add_block(BlockKind::IfCont);
                    let d2 = b2.add_block(BlockKind::IfCont);
                    lemma_alike_branch(d1, d2, t, then_bb, f1, f2);
                    let e1 = d1.terminate(t).position_at(then_bb);
                    let e2 = d2.terminate(t).position_at(then_bb);
                    lemma_block_alike(*then_body, f1, f2, e1, e2);
                    let t1 = block_spec(*then_body, f1, e1);
                    let t2 = block_spec(*then_body, f2, e2);
                    if t1.result is Ok {
                        lemma_alike_branch(
                            t1.state,
                            t2.state,
                            TerminatorView::Jump(cont_bb),
                            else_bb,
                            f1,
                            f2,
                        );
                        let o1 = t1.state.terminate(TerminatorView::Jump(cont_bb)).position_at(else_bb);
                        let o2 = t2.state.terminate(TerminatorView::Jump(cont_bb)).position_at(else_bb);
                        lemma_block_alike(*else_body, f1, f2, o1, o2);
                        let r1 = block_spec(*else_body, f1, o1);
                        let r2 = block_spec(*else_body, f2, o2);
                        lemma_alike_branch(
                            r1.state,
                            r2.state,
                            TerminatorView::Jump(cont_bb),
                            cont_bb,
                            f1,
                            f2,
                        );
                    }
                },
                Err(_) => {},
            }
        },
        _ => {},
    }
}

/// The same, of a `while`.
pub proof fn lemma_while_alike(
    s: Node,
    f1: Seq<Seq<char>>,
    f2: Seq<Seq<char>>,
    s1: LoweringState,
    s2: LoweringState,
)
    requires
        alike(s1, s2, f1, f2),
        same_names(f1, f2),
    ensures
        while_spec(s, f1, s1).result == while_spec(s, f2, s2).result,
        alike(while_spec(s, f1, s1).state, while_spec(s, f2, s2).state, f1, f2),
    decreases s, 0nat,
{
    match s {
        Node::WhileStatement { cond, body, next } => {
            let cond_bb = s1.blocks.len();
            let do_bb = cond_bb + 1;
            let cont_bb = cond_bb + 2;
            lemma_alike_add_block(s1, s2, BlockKind::Cond, f1, f2);
            let a1 = s1.add_block(BlockKind::Cond);
            let a2 = s2.add_block(BlockKind::Cond);
            lemma_alike_add_block(a1, a2, BlockKind::Do, f1, f2);
            let b1 = a1.add_block(BlockKind::Do);
            let b2 = a2.add_block(BlockKind::Do);
            lemma_alike_add_block(b1, b2, BlockKind::WhileCont, f1, f2);
            let d1 = b1.add_block(BlockKind::WhileCont);
            let d2 = b2.add_block(BlockKind::WhileCont);
            lemma_alike_branch(d1, d2, TerminatorView::Jump(cond_bb), cond_bb, f1, f2);
            let e1 = d1.terminate(TerminatorView::Jump(cond_bb)).position_at(cond_bb);
            let e2 = d2.terminate(TerminatorView::Jump(cond_bb)).position_at(cond_bb);
            lemma_expr_alike(*cond, f1, f2, e1, e2);
            let c1 = expr_spec(*cond, f1, e1);
            let c2 = expr_spec(*cond, f2, e2);
            match c1.result {
                Ok(v) => {
                    let t = TerminatorView::Branch { cond: v, on_true: do_bb, on_false: cont_bb };
                    lemma_alike_branch(c1.state, c2.state, t, do_bb, f1, f2);
                    let l1 = c1.state.terminate(t).position_at(do_bb);
                    let l2 = c2.state.terminate(t).position_at(do_bb);
                    lemma_block_alike(*body, f1, f2, l1, l2);
                    let r1 = block_spec(*body, f1, l1);
                    let r2 = block_spec(*body, f2, l2);
                    lemma_alike_branch(r1.state, r2.state, TerminatorView::Jump(cond_bb), cont_bb, f1, f2);
                },
                Err(_) => {},
            }
        },
        _ => {},
    }
}

/// The same, of one statement.
pub proof fn lemma_stmt_alike(
    s: Node,
    f1: Seq<Seq<char>>,
    f2: Seq<Seq<char>>,
    s1: LoweringState,
    s2: LoweringState,
)
    requires
        alike(s1, s2, f1, f2),
        same_names(f1, f2),
    ensures
        stmt_spec(s, f1, s1).result == stmt_spec(s, f2, s2).result,
        alike(stmt_spec(s, f1, s1).state, stmt_spec(s, f2, s2).state, f1, f2),
    decreases s, 1nat,
{
    match s {
        Node::LetStatement { binding, init_expr, next } => match *binding {
            Node::VarBinding(name, ty) => {
                lemma_expr_alike(*init_expr, f1, f2, s1, s2);
                let e1 = expr_spec(*init_expr, f1, s1);
                let e2 = expr_spec(*init_expr, f2, s2);
                match e1.result {
                    Ok(value) => {
                        lemma_alike_with_slot(e1.state, e2.state, name@, ty, f1, f2);
                        let inst = InstView::Store { slot: e1.state.slots.len(), value };
                        lemma_alike_emit(
                            e1.state.with_slot(name@, ty),
                            e2.state.with_slot(name@, ty),
                            inst,
                            inst,
                            f1,
                            f2,
                        );
                    },
                    Err(_) => {},
                }
            },
            _ => {},
        },
        Node::AssignStatement { var_name, expr, next } => {
            lemma_expr_alike(*expr, f1, f2, s1, s2);
            let e1 = expr_spec(*expr, f1, s1);
            let e2 = expr_spec(*expr, f2, s2);
            match e1.result {
                Ok(value) => match find_slot(e1.state.slots, var_name@) {
                    Some(slot) => {
                        let inst = InstView::Store { slot, value };
                        lemma_alike_emit(e1.state, e2.state, inst, inst, f1, f2);
                    },
                    None => {},
                },
                Err(_) => {},
            }
        },
        Node::ReturnStatement { expr } => {
            lemma_expr_alike(*expr, f1, f2, s1, s2);
            let e1 = expr_spec(*expr, f1, s1);
            let e2 = expr_spec(*expr, f2, s2);
            match e1.result {
                Ok(value) => {
                    lemma_alike_branch(
                        e1.state,
                        e2.state,
                        TerminatorView::Return(Some(value)),
                        0,
                        f1,
                        f2,
                    );
                },
                Err(_) => {},
            }
        },
        Node::IfStatement { .. } => {
            lemma_if_alike(s, f1, f2, s1, s2);
        },
        Node::IfElseStatement { .. } => {
            lemma_if_else_alike(s, f1, f2, s1, s2);
        },
        Node::WhileStatement { .. } => {
            lemma_while_alike(s, f1, f2, s1, s2);
        },
        _ => {},
    }
}

/// The same, of a chain of statements.
pub proof fn lemma_block_alike(
    s: Node,
    f1: Seq<Seq<char>>,
    f2: Seq<Seq<char>>,
    s1: LoweringState,
    s2: LoweringState,
)
    requires
        alike(s1, s2, f1, f2),
        same_names(f1, f2),
    ensures
        block_spec(s, f1, s1).result == block_spec(s, f2, s2).result,
        alike(block_spec(s, f1, s1).state, block_spec(s, f2, s2).state, f1, f2),
    decreases s, 2nat,
{
    lemma_stmt_alike(s, f1, f2, s1, s2);
    let a1 = stmt_spec(s, f1, s1);
    let a2 = stmt_spec(s, f2, s2);
    if a1.result is Ok {
        match s.next_of() {
            Some(n) => {
                lemma_block_alike(n, f1, f2, a1.state, a2.state);
            },
            None => {},
        }
    }
}

/// The state that the parameters are lowered into holds no call, so it is
/// like itself whatever the tables are.
proof fn lemma_params_alike(
    params: Seq<Box<Node>>,
    i: int,
    s1: LoweringState,
    s2: LoweringState,
    types: Seq<LiteralType>,
    f1: Seq<Seq<char>>,
    f2: Seq<Seq<char>>,
)
    requires
        alike(s1, s2, f1, f2),
    ensures
        params_spec(params, i, s1, types).result == params_spec(params, i, s2, types).result,
        alike(params_spec(params, i, s1, types).state, params_spec(params, i, s2, types).state, f1, f2),
    decreases params.len() - i,
{
    if 0 <= i < params.len() {
        match *params[i] {
            Node::FuncParam { name, declared_type } => {
                let slot = s1.slots.len();
                lemma_alike_with_slot(s1, s2, name@, declared_type, f1, f2);
                let a1 = s1.with_slot(name@, declared_type);
                let a2 = s2.with_slot(name@, declared_type);
                let read = InstView::Param(i as nat);
                lemma_alike_emit(a1, a2, read, read, f1, f2);
                lemma_alike_emit(s1, s2, read, read, f1, f2);
                let b1 = a1.emit(read);
                let b2 = a2.emit(read);
                let value = s1.code().len();
                assert(s2.code().len() == value);
                let write = InstView::Store { slot, value };
                lemma_alike_emit(b1, b2, write, write, f1, f2);
                lemma_params_alike(params, i + 1, b1.emit(write), b2.emit(write), types.push(declared_type), f1, f2);
            },
            _ => {},
        }
    }
}

/// A declaration lowers alike against two tables of the same names: it fails
/// against both with the same failure, or it gives two functions of one
/// signature with the same slots and the same graph, which differ in the
/// handles of callees at most.
pub proof fn lemma_function_alike(decl: Node, f1: Seq<Seq<char>>, f2: Seq<Seq<char>>)
    requires
        same_names(f1, f2),
    ensures
        match (function_spec(decl, f1), function_spec(decl, f2)) {
            (Ok(a), Ok(b)) => same_function(a, b, f1, f2),
            (Err(x), Err(y)) => x == y,
            _ => false,
        },
{
    match decl {
        Node::FuncDecl { name, params, return_type, body } => {
            let start = entry_state();
            assert(alike(start, start, f1, f2)) by {
                assert forall|b: int| 0 <= b < start.blocks.len() implies same_block(
                    #[trigger] start.blocks[b],
                    start.blocks[b],
                    f1,
                    f2,
                ) by {
                    assert(start.blocks[b] == empty_block(BlockKind::Entry));
                }
            }
            let none: Seq<LiteralType> = Seq::empty();
            lemma_params_alike(params@, 0, start, start, none, f1, f2);
            let p = params_spec(params@, 0, start, none);
            if p.result is Ok {
                lemma_block_alike(*body, f1, f2, p.state, p.state);
                let b1 = block_spec(*body, f1, p.state);
                let b2 = block_spec(*body, f2, p.state);
                lemma_alike_branch(b1.state, b2.state, TerminatorView::Return(None), 0, f1, f2);
            }
        },
        _ => {},
    }
}

/// The declaration stands somewhere in the program.
pub open spec fn stands_in(decl: Node, program: Seq<Box<Node>>) -> bool {
    exists|i: int| 0 <= i < program.len() && *(#[trigger] program[i]) == decl
}

/// Every declaration of `q` stands somewhere in `p`.
pub open spec fn holds_all(q: Seq<Box<Node>>, p: Seq<Box<Node>>) -> bool {
    forall|j: int| 0 <= j < q.len() ==> stands_in(*(#[trigger] q[j]), p)
}

/// No two declarations of the program give the same name.
pub open spec fn distinctly_named(q: Seq<Box<Node>>) -> bool {
    forall|j: int, k: int|
        0 <= j < k < q.len() ==> declared_name(*(#[trigger] q[j])) != declared_name(
            *(#[trigger] q[k]),
        )
}

/// Two functions have one signature, as many blocks, and the same edges.
pub open spec fn same_shape(a: FunctionView, b: FunctionView) -> bool {
    &&& a.sig == b.sig
    &&& a.blocks.len() == b.blocks.len()
    &&& forall|k: int|
        0 <= k < a.blocks.len() ==> successors(#[trigger] a.blocks[k]) == successors(b.blocks[k])
}

/// Functions that differ in the handles of callees at most have one shape.
pub proof fn lemma_same_function_same_shape(
    a: FunctionView,
    b: FunctionView,
    f1: Seq<Seq<char>>,
    f2: Seq<Seq<char>>,
)
    requires
        same_function(a, b, f1, f2),
    ensures
        same_shape(a, b),
{
    assert forall|k: int| 0 <= k < a.blocks.len() implies successors(#[trigger] a.blocks[k])
        == successors(b.blocks[k]) by {
        assert(same_block(a.blocks[k], b.blocks[k], f1, f2));
    }
}

/// Where the first pass succeeds, every declaration has a header.
pub proof fn lemma_declare_headers(program: Seq<Box<Node>>, i: int, table: Seq<FunctionView>)
    requires
        0 <= i,
    ensures
        declare_spec(program, i, table) is Ok ==> forall|j: int|
            i <= j < program.len() ==> header_spec(*(#[trigger] program[j])) is Ok,
    decreases program.len() - i,
{
    if i < program.len() {
        match header_spec(*program[i]) {
            Ok(f) => {
                lemma_declare_headers(program, i + 1, table.push(f));
            },
            Err(_) => {},
        }
    }
}

/// The first pass succeeds where every declaration has a header and no two
/// give the same name.
pub proof fn lemma_declare_succeeds(program: Seq<Box<Node>>, i: int, table: Seq<FunctionView>)
    requires
        0 <= i,
        registered(program, table, i),
        distinctly_named(program),
        forall|j: int| i <= j < program.len() ==> header_spec(*(#[trigger] program[j])) is Ok,
    ensures
        declare_spec(program, i, table) is Ok,
    decreases program.len() - i,
{
    if i < program.len() {
        let f = header_spec(*program[i])->Ok_0;
        assert(header_spec(*program[i]) is Ok);
        assert(f.sig.name == declared_name(*program[i]));
        let names = names_of(table);
        lemma_find_function_bound(names, f.sig.name, 0);
        match find_function(names, f.sig.name) {
            Some(c) => {
                assert(names[c as int] == table[c as int].sig.name);
                assert(declared_name(*program[c as int]) != declared_name(*program[i]));
            },
            None => {
                let more = table.push(f);
                assert forall|j: int| 0 <= j < i + 1 implies (#[trigger] more[j]).sig.name
                    == declared_name(*program[j]) by {
                    if j < i {
                        assert(more[j] == table[j]);
                    }
                }
                assert forall|j: int, k: int| 0 <= j < k < i + 1 implies (#[trigger] more[j]).sig.name
                    != (#[trigger] more[k]).sig.name by {
                    assert(more[j] == table[j]);
                    assert(names[j] == table[j].sig.name);
                    if k < i {
                        assert(more[k] == table[k]);
                    }
                }
                lemma_declare_succeeds(program, i + 1, more);
            },
        }
    }
}

/// Tables that register programs of the same declarations hold the same names.
pub proof fn lemma_same_declarations_same_names(
    p: Seq<Box<Node>>,
    q: Seq<Box<Node>>,
    tp: Seq<FunctionView>,
    tq: Seq<FunctionView>,
)
    requires
        registered(p, tp, p.len() as int),
        registered(q, tq, q.len() as int),
        holds_all(p, q),
        holds_all(q, p),
    ensures
        same_names(names_of(tp), names_of(tq)),
{
    let np = names_of(tp);
    let nq = names_of(tq);
    assert forall|n: Seq<char>|
        #![trigger find_function(np, n)]
        #![trigger find_function(nq, n)]
        find_function(np, n) is Some <==> find_function(nq, n) is Some by {
        lemma_find_function_bound(np, n, 0);
        lemma_find_function_bound(nq, n, 0);
        if find_function(np, n) is Some {
            let c = find_function(np, n)->Some_0 as int;
            assert(np[c] == tp[c].sig.name);
            assert(stands_in(*p[c], q));
            let j = choose|j: int| 0 <= j < q.len() && *(#[trigger] q[j]) == *p[c];
            assert(nq[j] == tq[j].sig.name);
        }
        if find_function(nq, n) is Some {
            let c = find_function(nq, n)->Some_0 as int;
            assert(nq[c] == tq[c].sig.name);
            assert(stands_in(*q[c], p));
            let j = choose|j: int| 0 <= j < p.len() && *(#[trigger] p[j]) == *q[c];
            assert(np[j] == tp[j].sig.name);
        }
    }
}

/// The order of the declarations does not matter. Where a program lowers, a
/// program of the same declarations in another order lowers too; the two
/// tables hold the same names; and a declaration gives the same function in
/// both, but for the handles of the functions it calls: one signature, the same
/// slots, the same blocks and branches, and calls of functions of one name.
pub proof fn lemma_order_does_not_matter(p: Seq<Box<Node>>, q: Seq<Box<Node>>)
    requires
        program_spec(p) is Ok,
        holds_all(p, q),
        holds_all(q, p),
        distinctly_named(q),
    ensures
        program_spec(q) is Ok,
        same_names(names_of(program_spec(p)->Ok_0), names_of(program_spec(q)->Ok_0)),
        forall|i: int, j: int|
            0 <= i < p.len() && 0 <= j < q.len() && *(#[trigger] p[i]) == *(#[trigger] q[j])
                ==> {
                &&& same_function(
                    program_spec(p)->Ok_0[i],
                    program_spec(q)->Ok_0[j],
                    names_of(program_spec(p)->Ok_0),
                    names_of(program_spec(q)->Ok_0),
                )
                &&& same_shape(program_spec(p)->Ok_0[i], program_spec(q)->Ok_0[j])
            },
{
    let none: Seq<FunctionView> = Seq::empty();
    let tp = program_spec(p)->Ok_0;
    lemma_program_entries(p);
    let np = names_of(tp);
    lemma_declare_headers(p, 0, none);
    assert forall|j: int| 0 <= j < q.len() implies header_spec(*(#[trigger] q[j])) is Ok by {
        assert(stands_in(*q[j], p));
        let i = choose|i: int| 0 <= i < p.len() && *(#[trigger] p[i]) == *q[j];
        assert(header_spec(*p[i]) is Ok);
    }
    lemma_declare_succeeds(q, 0, none);
    let dq = declare_spec(q, 0, none)->Ok_0;
    lemma_declare_registers(q, 0, none);
    lemma_same_declarations_same_names(p, q, tp, dq);
    let nq = names_of(dq);
    lemma_bodies_entries(q, 0, dq);
    match bodies_spec(q, 0, dq) {
        Err(e) => {
            let j = choose|j: int|
                0 <= j < q.len() && #[trigger] function_spec(*q[j], nq) == Err::<
                    FunctionView,
                    Failure,
                >(e);
            assert(stands_in(*q[j], p));
            let i = choose|i: int| 0 <= i < p.len() && *(#[trigger] p[i]) == *q[j];
            assert(function_spec(*p[i], np) == Ok::<FunctionView, Failure>(tp[i]));
            lemma_function_alike(*p[i], np, nq);
        },
        Ok(tq) => {
            assert(names_of(tq) == nq);
            assert forall|i: int, j: int|
                0 <= i < p.len() && 0 <= j < q.len() && *(#[trigger] p[i]) == *(#[trigger] q[j]) implies same_function(
                tp[i],
                tq[j],
                np,
                nq,
            ) && same_shape(tp[i], tq[j]) by {
                assert(function_spec(*p[i], np) == Ok::<FunctionView, Failure>(tp[i]));
                assert(function_spec(*q[j], nq) == Ok::<FunctionView, Failure>(tq[j]));
                lemma_function_alike(*p[i], np, nq);
                lemma_same_function_same_shape(tp[i], tq[j], np, nq);
            }
        },
    }
}

/// The name of the function that a call names.
pub open spec fn callee_name(e: Node) -> Seq<char> {
    match e {
        Node::FuncCall { name, .. } => name@,
        _ => Seq::empty(),
    }
}

/// A call that lowers becomes a call instruction whose handle is that of a
/// function of the table with the callee's name.
pub proof fn lemma_call_targets_its_callee(
    e: Node,
    funcs: Seq<Seq<char>>,
    st: LoweringState,
    nparams: nat,
)
    requires
        e is FuncCall,
        state_ok(st, nparams, funcs.len()),
    ensures
        call_spec(e, funcs, st).result matches Ok(v) ==> {
            let code = call_spec(e, funcs, st).state.code();
            &&& v < code.len()
            &&& code[v as int] matches InstView::Call { callee, args }
            &&& callee < funcs.len()
            &&& funcs[callee as int] == callee_name(e)
        },
{
    match e {
        Node::FuncCall { name, args, next } => {
            let none: Seq<nat> = Seq::empty();
            lemma_args_ok(args@, 0, funcs, st, none, nparams);
            lemma_find_function_bound(funcs, name@, 0);
        },
        _ => {},
    }
}

/// Where every declaration from `i` on has a header, the first pass fails over
/// a name declared twice only.
pub proof fn lemma_declare_fails_on_duplicates(
    program: Seq<Box<Node>>,
    i: int,
    table: Seq<FunctionView>,
)
    requires
        0 <= i,
        forall|k: int| i <= k < program.len() ==> header_spec(*(#[trigger] program[k])) is Ok,
    ensures
        declare_spec(program, i, table) matches Err(f) ==> f is DuplicateFunction,
    decreases program.len() - i,
{
    if i < program.len() {
        assert(header_spec(*program[i]) is Ok);
        let f = header_spec(*program[i])->Ok_0;
        lemma_declare_fails_on_duplicates(program, i + 1, table.push(f));
    }
}

/// A program in which two declarations give one name does not lower. Where
/// every declaration has a header, the failure is that of a duplicate.
pub proof fn lemma_duplicates_are_refused(program: Seq<Box<Node>>, i: int, j: int)
    requires
        0 <= i < j < program.len(),
        declared_name(*program[i]) == declared_name(*program[j]),
    ensures
        program_spec(program) is Err,
        (forall|k: int| 0 <= k < program.len() ==> header_spec(*(#[trigger] program[k])) is Ok)
            ==> (program_spec(program) matches Err(f) && f is DuplicateFunction),
{
    let none: Seq<FunctionView> = Seq::empty();
    lemma_declare_registers(program, 0, none);
    match declare_spec(program, 0, none) {
        Ok(declared) => {
            assert(declared[i].sig.name == declared_name(*program[i]));
            assert(declared[j].sig.name == declared_name(*program[j]));
        },
        Err(_) => {},
    }
    if forall|k: int| 0 <= k < program.len() ==> header_spec(*(#[trigger] program[k])) is Ok {
        lemma_declare_fails_on_duplicates(program, 0, none);
    }
}

/// The first `n` parameters have been lowered into the entry block: parameter
/// `k` has slot `k`, under its name and with its type, and the block reads it
/// and stores it there, in the two instructions at `2k` and `2k + 1`.
pub open spec fn parameters_laid_out(
    params: Seq<Box<Node>>,
    st: LoweringState,
    types: Seq<LiteralType>,
    n: int,
) -> bool {
    &&& st.current == 0
    &&& st.blocks.len() == 1
    &&& st.blocks[0].kind == BlockKind::Entry
    &&& st.blocks[0].term is None
    &&& st.slots.len() == n
    &&& types.len() == n
    &&& st.blocks[0].insts.len() == 2 * n
    &&& forall|k: int|
        0 <= k < n ==> {
            &&& *(#[trigger] params[k]) matches Node::FuncParam { name, declared_type }
            &&& st.slots[k] == SlotView { name: name@, ty: declared_type }
            &&& types[k] == declared_type
            &&& st.blocks[0].insts[2 * k] == InstView::Param(k as nat)
            &&& st.blocks[0].insts[2 * k + 1] == InstView::Store {
                slot: k as nat,
                value: (2 * k) as nat,
            }
        }
}

/// Lowering the parameters from `i` on keeps what is laid out and lays out the
/// rest.
pub proof fn lemma_params_layout(
    params: Seq<Box<Node>>,
    i: int,
    st: LoweringState,
    types: Seq<LiteralType>,
)
    requires
        0 <= i <= params.len(),
        parameters_laid_out(params, st, types, i),
    ensures
        params_spec(params, i, st, types).result matches Ok(all) ==> parameters_laid_out(
            params,
            params_spec(params, i, st, types).state,
            all,
            params.len() as int,
        ),
    decreases params.len() - i,
{
    if i < params.len() {
        match *params[i] {
            Node::FuncParam { name, declared_type } => {
                let slot = st.slots.len();
                let value = st.code().len();
                let next = st.with_slot(name@, declared_type).emit(InstView::Param(i as nat)).emit(
                    InstView::Store { slot, value },
                );
                let more = types.push(declared_type);
                let old_code = st.blocks[0].insts;
                let code = next.blocks[0].insts;
                assert(code =~= old_code.push(InstView::Param(i as nat)).push(
                    InstView::Store { slot, value },
                ));
                assert forall|k: int| 0 <= k < i + 1 implies {
                    &&& *(#[trigger] params[k]) matches Node::FuncParam { name, declared_type }
                    &&& next.slots[k] == SlotView { name: name@, ty: declared_type }
                    &&& more[k] == declared_type
                    &&& code[2 * k] == InstView::Param(k as nat)
                    &&& code[2 * k + 1] == InstView::Store { slot: k as nat, value: (2 * k) as nat }
                } by {
                    if k < i {
                        assert(next.slots[k] == st.slots[k]);
                        assert(code[2 * k] == old_code[2 * k]);
                        assert(code[2 * k + 1] == old_code[2 * k + 1]);
                    }
                }
                lemma_params_layout(params, i + 1, next, more);
            },
            _ => {},
        }
    }
}

/// A function's parameters are laid out at the head of its entry block before
/// the body is lowered: whatever the number of parameters, parameter `k` has
/// slot `k`, and the entry block begins by reading each parameter and storing
/// it in its slot, in order.
pub proof fn lemma_parameters_get_their_slots(params: Seq<Box<Node>>)
    ensures
        params_spec(params, 0, entry_state(), Seq::empty()).result matches Ok(types)
            ==> parameters_laid_out(
            params,
            params_spec(params, 0, entry_state(), Seq::empty()).state,
            types,
            params.len() as int,
        ),
{
    let start = entry_state();
    assert(start.blocks[0] == empty_block(BlockKind::Entry));
    lemma_params_layout(params, 0, start, Seq::empty());
}

/// A function is lowered from its own declaration and the names of the table
/// alone: the slots and blocks that other functions of the table hold, or that
/// the function itself held before, have no part in it.
pub proof fn lemma_function_ignores_other_bodies(
    decl: Node,
    first: Seq<FunctionView>,
    second: Seq<FunctionView>,
)
    requires
        names_of(first) == names_of(second),
    ensures
        function_spec(decl, names_of(first)) == function_spec(decl, names_of(second)),
{
}

} // verus!
