//! What lowering produces, stated as functions on mathematical values. The
//! executable lowering is proved to compute exactly these.

use vstd::prelude::*;
use crate::ast::{LiteralType, Node, NodeKind, Opcode};
use crate::cfg::{
    names_of, primitive_of, BlockKind, BlockView, FunctionView, InstView, SignatureView, SlotView,
    TerminatorView,
};
use crate::error::Failure;

verus! {

/// The state of lowering one function: the slots and blocks made so far, and the
/// block that takes the next instruction.
pub struct LoweringState {
    pub slots: Seq<SlotView>,
    pub blocks: Seq<BlockView>,
    pub current: nat,
}

/// A block of the given kind with nothing in it.
pub open spec fn empty_block(kind: BlockKind) -> BlockView {
    BlockView { kind, insts: Seq::empty(), term: None }
}

/// The state in which lowering of a function starts: no slot, and an empty
/// entry block that is the current one.
pub open spec fn entry_state() -> LoweringState {
    LoweringState {
        slots: Seq::empty(),
        blocks: seq![empty_block(BlockKind::Entry)],
        current: 0,
    }
}

impl LoweringState {
    /// The instructions of the current block.
    pub open spec fn code(self) -> Seq<InstView> {
        if self.current < self.blocks.len() {
            self.blocks[self.current as int].insts
        } else {
            Seq::empty()
        }
    }

    /// The state after `inst` was appended to the current block.
    pub open spec fn emit(self, inst: InstView) -> LoweringState {
        if self.current < self.blocks.len() {
            let b = self.blocks[self.current as int];
            LoweringState {
                blocks: self.blocks.update(
                    self.current as int,
                    BlockView { insts: b.insts.push(inst), ..b },
                ),
                ..self
            }
        } else {
            self
        }
    }

    /// The state after the current block was ended with `t`. A block that has
    /// its terminator keeps it: a block ends once.
    pub open spec fn terminate(self, t: TerminatorView) -> LoweringState {
        if self.current < self.blocks.len() && self.blocks[self.current as int].term.is_none() {
            let b = self.blocks[self.current as int];
            LoweringState {
                blocks: self.blocks.update(self.current as int, BlockView { term: Some(t), ..b }),
                ..self
            }
        } else {
            self
        }
    }

    /// The state after an empty block of the given kind was appended. The new
    /// block's index is the number of blocks before.
    pub open spec fn add_block(self, kind: BlockKind) -> LoweringState {
        LoweringState { blocks: self.blocks.push(empty_block(kind)), ..self }
    }

    /// The state with `block` as the current block.
    pub open spec fn position_at(self, block: nat) -> LoweringState {
        LoweringState { current: block, ..self }
    }

    /// The state after a slot was allocated. The new slot's index is the number
    /// of slots before.
    pub open spec fn with_slot(self, name: Seq<char>, ty: LiteralType) -> LoweringState {
        LoweringState { slots: self.slots.push(SlotView { name, ty }), ..self }
    }
}

/// The last of the first `n` slots that has the given name.
pub open spec fn find_slot_below(slots: Seq<SlotView>, name: Seq<char>, n: int) -> Option<nat>
    decreases n,
{
    if n <= 0 || n > slots.len() {
        None
    } else if slots[n - 1].name == name {
        Some((n - 1) as nat)
    } else {
        find_slot_below(slots, name, n - 1)
    }
}

/// The slot that a name stands for: the one allocated last under that name.
pub open spec fn find_slot(slots: Seq<SlotView>, name: Seq<char>) -> Option<nat> {
    find_slot_below(slots, name, slots.len() as int)
}

/// The first function from index `i` on that has the given name.
pub open spec fn find_function_from(names: Seq<Seq<char>>, name: Seq<char>, i: int) -> Option<nat>
    decreases names.len() - i,
{
    if i < 0 || i >= names.len() {
        None
    } else if names[i] == name {
        Some(i as nat)
    } else {
        find_function_from(names, name, i + 1)
    }
}

/// The handle of the function with the given name.
pub open spec fn find_function(names: Seq<Seq<char>>, name: Seq<char>) -> Option<nat> {
    find_function_from(names, name, 0)
}

/// The outcome of a lowering step: what it yields or why it failed, and the
/// state it left behind.
pub struct Lowered<T> {
    pub result: Result<T, Failure>,
    pub state: LoweringState,
}

/// Appending `inst` to the current block yields the position it gets.
pub open spec fn yields(st: LoweringState, inst: InstView) -> Lowered<nat> {
    Lowered { result: Ok(st.code().len()), state: st.emit(inst) }
}

/// The lowering of an expression into the current block; it yields the
/// position of the instruction that computes the expression's value.
///
/// A literal becomes a constant, a name a load of its slot. An operator lowers
/// its left operand, then its right one, then applies the primitive. Only
/// subtraction stands as a unary operator, for negation.
pub open spec fn expr_spec(e: Node, funcs: Seq<Seq<char>>, st: LoweringState) -> Lowered<nat>
    decreases e, 1nat,
{
    match e {
        Node::NumberLiteral(n) => yields(st, InstView::ConstInt(n)),
        Node::BoolLiteral(b) => yields(st, InstView::ConstBool(b)),
        Node::VarRef(name) => match find_slot(st.slots, name@) {
            Some(slot) => yields(st, InstView::Load(slot)),
            None => Lowered { result: Err(Failure::UndefinedVariable(name@)), state: st },
        },
        Node::UnaryOp(op, operand) => {
            let o = expr_spec(*operand, funcs, st);
            match o.result {
                Err(_) => o,
                Ok(v) => if op == Opcode::Sub {
                    yields(o.state, InstView::Neg(v))
                } else {
                    Lowered {
                        result: Err(Failure::UnsupportedNode(NodeKind::UnaryOp)),
                        state: o.state,
                    }
                },
            }
        },
        Node::BinaryExpr(left, op, right) => {
            let l = expr_spec(*left, funcs, st);
            match l.result {
                Err(_) => l,
                Ok(lhs) => {
                    let r = expr_spec(*right, funcs, l.state);
                    match r.result {
                        Err(_) => r,
                        Ok(rhs) => yields(
                            r.state,
                            InstView::Binary { op: primitive_of(op), lhs, rhs },
                        ),
                    }
                },
            }
        },
        Node::FuncCall { .. } => call_spec(e, funcs, st),
        _ => Lowered { result: Err(Failure::UnsupportedNode(e.kind_of())), state: st },
    }
}

/// The lowering of the arguments of a call from index `i` on, left to right;
/// `ids` holds the values of the arguments before `i`.
pub open spec fn args_spec(
    args: Seq<Box<Node>>,
    i: int,
    funcs: Seq<Seq<char>>,
    st: LoweringState,
    ids: Seq<nat>,
) -> Lowered<Seq<nat>>
    decreases args, args.len() - i,
{
    if 0 <= i < args.len() {
        let a = expr_spec(*args[i], funcs, st);
        match a.result {
            Err(e) => Lowered { result: Err(e), state: a.state },
            Ok(v) => args_spec(args, i + 1, funcs, a.state, ids.push(v)),
        }
    } else {
        Lowered { result: Ok(ids), state: st }
    }
}

/// The lowering of a call: the arguments in order, then the callee's handle
/// from the function table, then the call itself.
pub open spec fn call_spec(e: Node, funcs: Seq<Seq<char>>, st: LoweringState) -> Lowered<nat>
    decreases e, 0nat,
{
    match e {
        Node::FuncCall { name, args, next } => {
            let a = args_spec(args@, 0, funcs, st, Seq::empty());
            match a.result {
                Err(err) => Lowered { result: Err(err), state: a.state },
                Ok(ids) => match find_function(funcs, name@) {
                    Some(callee) => yields(a.state, InstView::Call { callee, args: ids }),
                    None => Lowered {
                        result: Err(Failure::UnknownFunction(name@)),
                        state: a.state,
                    },
                },
            }
        },
        _ => Lowered { result: Err(Failure::UnsupportedNode(e.kind_of())), state: st },
    }
}

/// A step that yields nothing and leaves the state `st`.
pub open spec fn done(st: LoweringState) -> Lowered<()> {
    Lowered { result: Ok(()), state: st }
}

/// A step that fails with `e` in the state `st`.
pub open spec fn failed<T>(st: LoweringState, e: Failure) -> Lowered<T> {
    Lowered { result: Err(e), state: st }
}

/// The lowering of `if`: the condition goes into the current block, which then
/// branches to a new `Then` block or past it to a new `IfCont` block; the body
/// goes into `Then`, which jumps to `IfCont`; lowering goes on in `IfCont`.
pub open spec fn if_spec(s: Node, funcs: Seq<Seq<char>>, st: LoweringState) -> Lowered<()>
    decreases s, 0nat,
{
    match s {
        Node::IfStatement { cond, body, next } => {
            let c = expr_spec(*cond, funcs, st);
            match c.result {
                Err(e) => failed(c.state, e),
                Ok(v) => {
                    let then_bb = c.state.blocks.len();
                    let cont_bb = then_bb + 1;
                    let entered = c.state.add_block(BlockKind::Then).add_block(
                        BlockKind::IfCont,
                    ).terminate(
                        TerminatorView::Branch { cond: v, on_true: then_bb, on_false: cont_bb },
                    ).position_at(then_bb);
                    let b = block_spec(*body, funcs, entered);
                    match b.result {
                        Err(_) => b,
                        Ok(_) => done(
                            b.state.terminate(TerminatorView::Jump(cont_bb)).position_at(cont_bb),
                        ),
                    }
                },
            }
        },
        _ => failed(st, Failure::UnsupportedNode(s.kind_of())),
    }
}

/// The lowering of `if`/`else`: as for `if`, with a new `Else` block on the
/// false side; both sides jump to the shared `IfCont` block.
pub open spec fn if_else_spec(s: Node, funcs: Seq<Seq<char>>, st: LoweringState) -> Lowered<()>
    decreases s, 0nat,
{
    match s {
        Node::IfElseStatement { cond, then_body, else_body, next } => {
            let c = expr_spec(*cond, funcs, st);
            match c.result {
                Err(e) => failed(c.state, e),
                Ok(v) => {
                    let then_bb = c.state.blocks.len();
                    let else_bb = then_bb + 1;
                    let cont_bb = then_bb + 2;
                    let entered = c.state.add_block(BlockKind::Then).add_block(
                        BlockKind::Else,
                    ).add_block(BlockKind::IfCont).terminate(
                        TerminatorView::Branch { cond: v, on_true: then_bb, on_false: else_bb },
                    ).position_at(then_bb);
                    let t = block_spec(*then_body, funcs, entered);
                    match t.result {
                        Err(_) => t,
                        Ok(_) => {
                            let e = block_spec(
                                *else_body,
                                funcs,
                                t.state.terminate(TerminatorView::Jump(cont_bb)).position_at(
                                    else_bb,
                                ),
                            );
                            match e.result {
                                Err(_) => e,
                                Ok(_) => done(
                                    e.state.terminate(TerminatorView::Jump(cont_bb)).position_at(
                                        cont_bb,
                                    ),
                                ),
                            }
                        },
                    }
                },
            }
        },
        _ => failed(st, Failure::UnsupportedNode(s.kind_of())),
    }
}

/// The lowering of `while`: the current block jumps to a new `Cond` block, which
/// holds the condition and branches to a new `Do` block or to a new `WhileCont`
/// block; the body goes into `Do`, which jumps back to `Cond`; lowering goes on
/// in `WhileCont`.
pub open spec fn while_spec(s: Node, funcs: Seq<Seq<char>>, st: LoweringState) -> Lowered<()>
    decreases s, 0nat,
{
    match s {
        Node::WhileStatement { cond, body, next } => {
            let cond_bb = st.blocks.len();
            let do_bb = cond_bb + 1;
            let cont_bb = cond_bb + 2;
            let entered = st.add_block(BlockKind::Cond).add_block(BlockKind::Do).add_block(
                BlockKind::WhileCont,
            ).terminate(TerminatorView::Jump(cond_bb)).position_at(cond_bb);
            let c = expr_spec(*cond, funcs, entered);
            match c.result {
                Err(e) => failed(c.state, e),
                Ok(v) => {
                    let b = block_spec(
                        *body,
                        funcs,
                        c.state.terminate(
                            TerminatorView::Branch { cond: v, on_true: do_bb, on_false: cont_bb },
                        ).position_at(do_bb),
                    );
                    match b.result {
                        Err(_) => b,
                        Ok(_) => done(
                            b.state.terminate(TerminatorView::Jump(cond_bb)).position_at(cont_bb),
                        ),
                    }
                },
            }
        },
        _ => failed(st, Failure::UnsupportedNode(s.kind_of())),
    }
}

/// The lowering of one statement, without what follows it.
///
/// `let` lowers its initialiser, allocates a fresh slot for the name and stores
/// the value there. An assignment lowers its expression and stores the value in
/// the slot the name has. `return` lowers its expression and ends the block.
pub open spec fn stmt_spec(s: Node, funcs: Seq<Seq<char>>, st: LoweringState) -> Lowered<()>
    decreases s, 1nat,
{
    match s {
        Node::LetStatement { binding, init_expr, next } => match *binding {
            Node::VarBinding(name, ty) => {
                let e = expr_spec(*init_expr, funcs, st);
                match e.result {
                    Err(err) => failed(e.state, err),
                    Ok(value) => done(
                        e.state.with_slot(name@, ty).emit(
                            InstView::Store { slot: e.state.slots.len(), value },
                        ),
                    ),
                }
            },
            other => failed(st, Failure::UnsupportedNode(other.kind_of())),
        },
        Node::AssignStatement { var_name, expr, next } => {
            let e = expr_spec(*expr, funcs, st);
            match e.result {
                Err(err) => failed(e.state, err),
                Ok(value) => match find_slot(e.state.slots, var_name@) {
                    Some(slot) => done(e.state.emit(InstView::Store { slot, value })),
                    None => failed(e.state, Failure::UndefinedVariable(var_name@)),
                },
            }
        },
        Node::ReturnStatement { expr } => {
            let e = expr_spec(*expr, funcs, st);
            match e.result {
                Err(err) => failed(e.state, err),
                Ok(value) => done(e.state.terminate(TerminatorView::Return(Some(value)))),
            }
        },
        Node::IfStatement { .. } => if_spec(s, funcs, st),
        Node::IfElseStatement { .. } => if_else_spec(s, funcs, st),
        Node::WhileStatement { .. } => while_spec(s, funcs, st),
        _ => failed(st, Failure::UnsupportedNode(s.kind_of())),
    }
}

/// The lowering of the chain of statements that `s` heads: each statement in
/// turn, up to the first failure.
pub open spec fn block_spec(s: Node, funcs: Seq<Seq<char>>, st: LoweringState) -> Lowered<()>
    decreases s, 2nat,
{
    let first = stmt_spec(s, funcs, st);
    match first.result {
        Err(_) => first,
        Ok(_) => match s.next_of() {
            Some(n) => block_spec(n, funcs, first.state),
            None => first,
        },
    }
}

/// The lowering of the parameters from index `i` on: each gets a slot, and its
/// incoming value is stored there. `types` holds the types of those before `i`.
pub open spec fn params_spec(
    params: Seq<Box<Node>>,
    i: int,
    st: LoweringState,
    types: Seq<LiteralType>,
) -> Lowered<Seq<LiteralType>>
    decreases params.len() - i,
{
    if 0 <= i < params.len() {
        match *params[i] {
            Node::FuncParam { name, declared_type } => {
                let slot = st.slots.len();
                let value = st.code().len();
                params_spec(
                    params,
                    i + 1,
                    st.with_slot(name@, declared_type).emit(InstView::Param(i as nat)).emit(
                        InstView::Store { slot, value },
                    ),
                    types.push(declared_type),
                )
            },
            other => failed(st, Failure::UnsupportedNode(other.kind_of())),
        }
    } else {
        Lowered { result: Ok(types), state: st }
    }
}

/// The function that a declaration lowers to, given the names of the functions
/// in the table: slots for the parameters, then the body; a function without a
/// return type gets a return at the end of the block where lowering stopped.
pub open spec fn function_spec(decl: Node, funcs: Seq<Seq<char>>) -> Result<FunctionView, Failure> {
    match decl {
        Node::FuncDecl { name, params, return_type, body } => {
            let p = params_spec(params@, 0, entry_state(), Seq::empty());
            match p.result {
                Err(e) => Err(e),
                Ok(types) => {
                    let b = block_spec(*body, funcs, p.state);
                    match b.result {
                        Err(e) => Err(e),
                        Ok(_) => {
                            let end = if return_type.is_none() {
                                b.state.terminate(TerminatorView::Return(None))
                            } else {
                                b.state
                            };
                            Ok(
                                FunctionView {
                                    sig: SignatureView {
                                        name: name@,
                                        params: types,
                                        ret: return_type,
                                    },
                                    slots: end.slots,
                                    blocks: end.blocks,
                                },
                            )
                        },
                    }
                },
            }
        },
        _ => Err(Failure::UnsupportedNode(decl.kind_of())),
    }
}

/// The types of the parameters from index `i` on, after those in `types`.
pub open spec fn param_types_spec(params: Seq<Box<Node>>, i: int, types: Seq<LiteralType>) -> Result<
    Seq<LiteralType>,
    Failure,
>
    decreases params.len() - i,
{
    if 0 <= i < params.len() {
        match *params[i] {
            Node::FuncParam { name, declared_type } => param_types_spec(
                params,
                i + 1,
                types.push(declared_type),
            ),
            other => Err(Failure::UnsupportedNode(other.kind_of())),
        }
    } else {
        Ok(types)
    }
}

/// The table entry that a declaration is registered with before any body is
/// lowered: its signature and an empty entry block.
pub open spec fn header_spec(decl: Node) -> Result<FunctionView, Failure> {
    match decl {
        Node::FuncDecl { name, params, return_type, body } => match param_types_spec(
            params@,
            0,
            Seq::empty(),
        ) {
            Err(e) => Err(e),
            Ok(types) => Ok(
                FunctionView {
                    sig: SignatureView { name: name@, params: types, ret: return_type },
                    slots: Seq::empty(),
                    blocks: seq![empty_block(BlockKind::Entry)],
                },
            ),
        },
        _ => Err(Failure::UnsupportedNode(decl.kind_of())),
    }
}

/// The first pass from declaration `i` on: every declaration is registered in
/// `table`, in order; a name that the table already holds is refused.
pub open spec fn declare_spec(program: Seq<Box<Node>>, i: int, table: Seq<FunctionView>) -> Result<
    Seq<FunctionView>,
    Failure,
>
    decreases program.len() - i,
{
    if 0 <= i < program.len() {
        match header_spec(*program[i]) {
            Err(e) => Err(e),
            Ok(f) => if find_function(names_of(table), f.sig.name).is_some() {
                Err(Failure::DuplicateFunction(f.sig.name))
            } else {
                declare_spec(program, i + 1, table.push(f))
            },
        }
    } else {
        Ok(table)
    }
}

/// The second pass from declaration `i` on: each body is lowered against the
/// names of the whole table and takes the place of its entry.
pub open spec fn bodies_spec(program: Seq<Box<Node>>, i: int, table: Seq<FunctionView>) -> Result<
    Seq<FunctionView>,
    Failure,
>
    decreases program.len() - i,
{
    if 0 <= i < program.len() && i < table.len() {
        match function_spec(*program[i], names_of(table)) {
            Err(e) => Err(e),
            Ok(f) => bodies_spec(program, i + 1, table.update(i, f)),
        }
    } else {
        Ok(table)
    }
}

/// The function table that a program lowers to: all declarations are
/// registered first, then all bodies are lowered.
pub open spec fn program_spec(program: Seq<Box<Node>>) -> Result<Seq<FunctionView>, Failure> {
    match declare_spec(program, 0, Seq::empty()) {
        Err(e) => Err(e),
        Ok(table) => bodies_spec(program, 0, table),
    }
}

} // verus!
