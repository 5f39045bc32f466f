//! Lowering of function bodies into basic blocks, and the two passes that build
//! the function table.

use vstd::prelude::*;
use crate::ast::{LiteralType, Node, NodeKind, Opcode};
use crate::cfg::{
    ids, names_of, primitive, views, Block, BlockKind, Function, FunctionTable, FunctionView, Inst,
    Signature, Slot, Terminator,
};
use crate::error::{Failure, LangError};
use crate::laws::lemma_lowered_table_is_well_formed;
use crate::lowering::{
    args_spec, block_spec, bodies_spec, call_spec, declare_spec, entry_state, expr_spec,
    find_function, find_function_from, find_slot, find_slot_below, function_spec, header_spec,
    if_else_spec, if_spec, param_types_spec, params_spec, program_spec, stmt_spec, while_spec,
    Lowered, LoweringState,
};

use crate::validate::table_ok;

verus! {

/// A result that holds a position, with its error taken by its view.
pub open spec fn value_outcome(r: Result<usize, LangError>) -> Result<nat, Failure> {
    match r {
        Ok(v) => Ok(v as nat),
        Err(e) => Err(e@),
    }
}

/// A result that holds nothing, with its error taken by its view.
pub open spec fn unit_outcome(r: Result<(), LangError>) -> Result<(), Failure> {
    match r {
        Ok(_) => Ok(()),
        Err(e) => Err(e@),
    }
}

/// A result that holds a function, with both sides taken by their views.
pub open spec fn function_outcome(r: Result<Function, LangError>) -> Result<FunctionView, Failure> {
    match r {
        Ok(f) => Ok(f@),
        Err(e) => Err(e@),
    }
}

/// A result that holds a function table, with both sides taken by their views.
pub open spec fn table_outcome(r: Result<FunctionTable, LangError>) -> Result<
    Seq<FunctionView>,
    Failure,
> {
    match r {
        Ok(t) => Ok(t@),
        Err(e) => Err(e@),
    }
}

/// Looks a function up by name; its index in the table is its handle.
pub fn get_function(table: &FunctionTable, name: &String) -> (r: Option<usize>)
    ensures
        match r {
            Some(i) => i < table.functions@.len() && find_function(names_of(table@), name@) == Some(
                i as nat,
            ),
            None => find_function(names_of(table@), name@).is_none(),
        },
{
    let mut i: usize = 0;
    while i < table.functions.len()
        invariant
            i <= table.functions@.len(),
            find_function(names_of(table@), name@) == find_function_from(
                names_of(table@),
                name@,
                i as int,
            ),
        decreases table.functions@.len() - i,
    {
        if table.functions[i].sig.name == *name {
            return Some(i);
        }
        i += 1;
    }
    None
}

/// The lowering of one function in progress.
#[derive(Debug)]
pub struct Compiler {
    pub slots: Vec<Slot>,
    pub blocks: Vec<Block>,
    pub current: usize,
}

impl View for Compiler {
    type V = LoweringState;

    open spec fn view(&self) -> LoweringState {
        LoweringState {
            slots: views(self.slots@),
            blocks: views(self.blocks@),
            current: self.current as nat,
        }
    }
}

impl Compiler {
    /// Starts the lowering of a function: an empty entry block, which is the
    /// current block, and no slot.
    pub fn new() -> (c: Compiler)
        ensures
            c@ == entry_state(),
    {
        let mut blocks: Vec<Block> = Vec::new();
        blocks.push(Block { kind: BlockKind::Entry, insts: Vec::new(), term: None });
        let c = Compiler { slots: Vec::new(), blocks, current: 0 };
        assert(c@.slots =~= entry_state().slots);
        assert(views(c.blocks@[0].insts@) =~= Seq::empty());
        assert(c@.blocks =~= entry_state().blocks);
        c
    }

    /// Appends an instruction to the current block and returns its position there.
    pub fn emit(&mut self, inst: Inst) -> (v: usize)
        ensures
            final(self)@ == old(self)@.emit(inst@),
            v == old(self)@.code().len(),
    {
        if self.current < self.blocks.len() {
            let v: usize = self.blocks[self.current].insts.len();
            self.blocks[self.current].insts.push(inst);
            assert(views(self.blocks@) =~= old(self)@.emit(inst@).blocks) by {
                assert(views(self.blocks@[self.current as int].insts@) =~= views(
                    old(self).blocks@[self.current as int].insts@,
                ).push(inst@));
            }
            v
        } else {
            0
        }
    }

    /// Ends the current block with `t`, unless it has its terminator already.
    pub fn terminate(&mut self, t: Terminator)
        ensures
            final(self)@ == old(self)@.terminate(t@),
    {
        if self.current < self.blocks.len() {
            if self.blocks[self.current].term.is_none() {
                self.blocks[self.current].term = Some(t);
                assert(views(self.blocks@) =~= old(self)@.terminate(t@).blocks);
            }
        }
    }

    /// Appends an empty block of the given kind and returns its index.
    pub fn append_basic_block(&mut self, kind: BlockKind) -> (id: usize)
        ensures
            final(self)@ == old(self)@.add_block(kind),
            id == old(self)@.blocks.len(),
    {
        let id: usize = self.blocks.len();
        self.blocks.push(Block { kind, insts: Vec::new(), term: None });
        assert(views(self.blocks@) =~= old(self)@.add_block(kind).blocks) by {
            assert(views(self.blocks@[id as int].insts@) =~= Seq::empty());
        }
        id
    }

    /// Makes `block` the block that takes the next instruction.
    pub fn position_at_end(&mut self, block: usize)
        ensures
            final(self)@ == old(self)@.position_at(block as nat),
    {
        self.current = block;
    }

    /// Allocates a fresh stack slot under `name` and returns its index. From
    /// now on the name stands for this slot.
    pub fn create_entry_block_alloca(&mut self, name: &String, ty: LiteralType) -> (slot: usize)
        ensures
            final(self)@ == old(self)@.with_slot(name@, ty),
            slot == old(self)@.slots.len(),
    {
        let slot: usize = self.slots.len();
        self.slots.push(Slot { name: name.clone(), ty });
        assert(views(self.slots@) =~= old(self)@.with_slot(name@, ty).slots);
        slot
    }

    /// The slot that `name` stands for, if any slot was allocated under it.
    pub fn lookup(&self, name: &String) -> (r: Option<usize>)
        ensures
            match r {
                Some(i) => find_slot(self@.slots, name@) == Some(i as nat),
                None => find_slot(self@.slots, name@).is_none(),
            },
    {
        let mut i: usize = self.slots.len();
        while i > 0
            invariant
                i <= self.slots@.len(),
                find_slot(self@.slots, name@) == find_slot_below(self@.slots, name@, i as int),
            decreases i,
        {
            i -= 1;
            if self.slots[i].name == *name {
                return Some(i);
            }
        }
        None
    }

    /// Lowers an expression into the current block and returns the position of
    /// the instruction that computes its value.
    pub fn compile_expr(&mut self, expr: &Node, table: &FunctionTable) -> (r: Result<
        usize,
        LangError,
    >)
        ensures
            expr_spec(*expr, names_of(table@), old(self)@) == (Lowered {
                result: value_outcome(r),
                state: final(self)@,
            }),
        decreases expr, 1nat,
    {
        match expr {
            Node::NumberLiteral(num) => Ok(self.emit(Inst::ConstInt(*num))),
            Node::BoolLiteral(b) => Ok(self.emit(Inst::ConstBool(*b))),
            Node::VarRef(id) => match self.lookup(id) {
                Some(slot) => Ok(self.emit(Inst::Load(slot))),
                None => Err(LangError::UndefinedVariable(id.clone())),
            },
            Node::UnaryOp(op, operand) => {
                let value = self.compile_expr(operand, table)?;
                match op {
                    Opcode::Sub => Ok(self.emit(Inst::Neg(value))),
                    _ => Err(LangError::UnsupportedNode(NodeKind::UnaryOp)),
                }
            },
            Node::BinaryExpr(left, op, right) => {
                let l_val = self.compile_expr(left, table)?;
                let r_val = self.compile_expr(right, table)?;
                Ok(self.emit(Inst::Binary { op: primitive(*op), lhs: l_val, rhs: r_val }))
            },
            Node::FuncCall { .. } => self.compile_call(expr, table),
            _ => Err(LangError::UnsupportedNode(expr.kind())),
        }
    }

    /// Lowers a call: the arguments from left to right, then the call of the
    /// function that the table holds under the callee's name.
    #[verifier::loop_isolation(false)]
    pub fn compile_call(&mut self, call: &Node, table: &FunctionTable) -> (r: Result<
        usize,
        LangError,
    >)
        ensures
            call_spec(*call, names_of(table@), old(self)@) == (Lowered {
                result: value_outcome(r),
                state: final(self)@,
            }),
        decreases call, 0nat,
    {
        match call {
            Node::FuncCall { name, args, .. } => {
                let mut compiled_args: Vec<usize> = Vec::new();
                let mut i: usize = 0;
                assert(ids(compiled_args@) =~= Seq::empty());
                while i < args.len()
                    invariant
                        i <= args@.len(),
                        args_spec(args@, 0, names_of(table@), old(self)@, Seq::empty())
                            == args_spec(
                            args@,
                            i as int,
                            names_of(table@),
                            self@,
                            ids(compiled_args@),
                        ),
                    decreases args@.len() - i,
                {
                    let ghost before = ids(compiled_args@);
                    match self.compile_expr(&args[i], table) {
                        Ok(v) => {
                            compiled_args.push(v);
                            assert(ids(compiled_args@) =~= before.push(v as nat));
                        },
                        Err(e) => {
                            return Err(e);
                        },
                    }
                    i += 1;
                }
                match get_function(table, name) {
                    Some(callee) => Ok(self.emit(Inst::Call { callee, args: compiled_args })),
                    None => Err(LangError::UnknownFunction(name.clone())),
                }
            },
            _ => Err(LangError::UnsupportedNode(call.kind())),
        }
    }

    /// Lowers an `if` without `else`.
    pub fn compile_if(&mut self, stmt: &Node, table: &FunctionTable) -> (r: Result<(), LangError>)
        ensures
            if_spec(*stmt, names_of(table@), old(self)@) == (Lowered {
                result: unit_outcome(r),
                state: final(self)@,
            }),
        decreases stmt, 0nat,
    {
        match stmt {
            Node::IfStatement { cond, body, .. } => {
                let cond = self.compile_expr(cond, table)?;
                let then_bb: usize = self.append_basic_block(BlockKind::Then);
                let cont_bb: usize = self.append_basic_block(BlockKind::IfCont);
                self.terminate(Terminator::Branch { cond, on_true: then_bb, on_false: cont_bb });
                self.position_at_end(then_bb);
                self.compile_block(body, table)?;
                self.terminate(Terminator::Jump(cont_bb));
                self.position_at_end(cont_bb);
                Ok(())
            },
            _ => Err(LangError::UnsupportedNode(stmt.kind())),
        }
    }

    /// Lowers an `if` with an `else`.
    pub fn compile_if_else(&mut self, stmt: &Node, table: &FunctionTable) -> (r: Result<
        (),
        LangError,
    >)
        ensures
            if_else_spec(*stmt, names_of(table@), old(self)@) == (Lowered {
                result: unit_outcome(r),
                state: final(self)@,
            }),
        decreases stmt, 0nat,
    {
        match stmt {
            Node::IfElseStatement { cond, then_body, else_body, .. } => {
                let cond = self.compile_expr(cond, table)?;
                let then_bb: usize = self.append_basic_block(BlockKind::Then);
                let else_bb: usize = self.append_basic_block(BlockKind::Else);
                let cont_bb: usize = self.append_basic_block(BlockKind::IfCont);
                self.terminate(Terminator::Branch { cond, on_true: then_bb, on_false: else_bb });
                self.position_at_end(then_bb);
                self.compile_block(then_body, table)?;
                self.terminate(Terminator::Jump(cont_bb));
                self.position_at_end(else_bb);
                self.compile_block(else_body, table)?;
                self.terminate(Terminator::Jump(cont_bb));
                self.position_at_end(cont_bb);
                Ok(())
            },
            _ => Err(LangError::UnsupportedNode(stmt.kind())),
        }
    }

    /// Lowers a `while` loop.
    pub fn compile_while(&mut self, stmt: &Node, table: &FunctionTable) -> (r: Result<
        (),
        LangError,
    >)
        ensures
            while_spec(*stmt, names_of(table@), old(self)@) == (Lowered {
                result: unit_outcome(r),
                state: final(self)@,
            }),
        decreases stmt, 0nat,
    {
        match stmt {
            Node::WhileStatement { cond, body, .. } => {
                let cond_bb: usize = self.append_basic_block(BlockKind::Cond);
                let do_bb: usize = self.append_basic_block(BlockKind::Do);
                let cont_bb: usize = self.append_basic_block(BlockKind::WhileCont);
                self.terminate(Terminator::Jump(cond_bb));
                self.position_at_end(cond_bb);
                let cond_res = self.compile_expr(cond, table)?;
                self.terminate(
                    Terminator::Branch { cond: cond_res, on_true: do_bb, on_false: cont_bb },
                );
                self.position_at_end(do_bb);
                self.compile_block(body, table)?;
                self.terminate(Terminator::Jump(cond_bb));
                self.position_at_end(cont_bb);
                Ok(())
            },
            _ => Err(LangError::UnsupportedNode(stmt.kind())),
        }
    }

    /// Lowers one statement, without the statements that follow it.
    pub fn compile_stmnt(&mut self, statement: &Node, table: &FunctionTable) -> (r: Result<
        (),
        LangError,
    >)
        ensures
            stmt_spec(*statement, names_of(table@), old(self)@) == (Lowered {
                result: unit_outcome(r),
                state: final(self)@,
            }),
        decreases statement, 1nat,
    {
        match statement {
            Node::LetStatement { binding, init_expr, .. } => match &**binding {
                Node::VarBinding(id, ty) => {
                    let expr_val = self.compile_expr(init_expr, table)?;
                    let alloca = self.create_entry_block_alloca(id, *ty);
                    self.emit(Inst::Store { slot: alloca, value: expr_val });
                    Ok(())
                },
                other => Err(LangError::UnsupportedNode(other.kind())),
            },
            Node::AssignStatement { var_name, expr, .. } => {
                let expr_val = self.compile_expr(expr, table)?;
                match self.lookup(var_name) {
                    Some(slot) => {
                        self.emit(Inst::Store { slot, value: expr_val });
                        Ok(())
                    },
                    None => Err(LangError::UndefinedVariable(var_name.clone())),
                }
            },
            Node::ReturnStatement { expr } => {
                let ret_val = self.compile_expr(expr, table)?;
                self.terminate(Terminator::Return(Some(ret_val)));
                Ok(())
            },
            Node::IfStatement { .. } => self.compile_if(statement, table),
            Node::IfElseStatement { .. } => self.compile_if_else(statement, table),
            Node::WhileStatement { .. } => self.compile_while(statement, table),
            _ => Err(LangError::UnsupportedNode(statement.kind())),
        }
    }

    /// Lowers the chain of statements that `statement` heads.
    pub fn compile_block(&mut self, statement: &Node, table: &FunctionTable) -> (r: Result<
        (),
        LangError,
    >)
        ensures
            block_spec(*statement, names_of(table@), old(self)@) == (Lowered {
                result: unit_outcome(r),
                state: final(self)@,
            }),
        decreases statement, 2nat,
    {
        self.compile_stmnt(statement, table)?;
        match statement.next() {
            Some(n) => self.compile_block(n, table),
            None => Ok(()),
        }
    }
}

/// Lowers one declared function against the names in the table: a slot for each
/// parameter with the incoming value stored in it, then the body. A function
/// without a return type gets its return appended where the body stopped.
#[verifier::loop_isolation(false)]
pub fn compile_fn(decl: &Node, table: &FunctionTable) -> (r: Result<Function, LangError>)
    ensures
        function_outcome(r) == function_spec(*decl, names_of(table@)),
{
    match decl {
        Node::FuncDecl { name, params, return_type, body } => {
            let mut compiler = Compiler::new();
            let mut types: Vec<LiteralType> = Vec::new();
            let mut i: usize = 0;
            while i < params.len()
                invariant
                    i <= params@.len(),
                    params_spec(params@, 0, entry_state(), Seq::empty()) == params_spec(
                        params@,
                        i as int,
                        compiler@,
                        types@,
                    ),
                decreases params@.len() - i,
            {
                match &*params[i] {
                    Node::FuncParam { name, declared_type } => {
                        let alloca = compiler.create_entry_block_alloca(name, *declared_type);
                        let param = compiler.emit(Inst::Param(i));
                        compiler.emit(Inst::Store { slot: alloca, value: param });
                        types.push(*declared_type);
                    },
                    other => {
                        return Err(LangError::UnsupportedNode(other.kind()));
                    },
                }
                i += 1;
            }
            match compiler.compile_block(body, table) {
                Ok(_) => {},
                Err(e) => {
                    return Err(e);
                },
            }
            if return_type.is_none() {
                compiler.terminate(Terminator::Return(None));
            }
            Ok(
                Function {
                    sig: Signature { name: name.clone(), params: types, ret: *return_type },
                    slots: compiler.slots,
                    blocks: compiler.blocks,
                },
            )
        },
        _ => Err(LangError::UnsupportedNode(decl.kind())),
    }
}

/// Computes the table entry under which a declaration is registered before any
/// body is lowered: its signature, and an entry block with nothing in it.
#[verifier::loop_isolation(false)]
pub fn header(decl: &Node) -> (r: Result<Function, LangError>)
    ensures
        function_outcome(r) == header_spec(*decl),
{
    match decl {
        Node::FuncDecl { name, params, return_type, .. } => {
            let mut types: Vec<LiteralType> = Vec::new();
            let mut i: usize = 0;
            while i < params.len()
                invariant
                    i <= params@.len(),
                    param_types_spec(params@, 0, Seq::empty()) == param_types_spec(
                        params@,
                        i as int,
                        types@,
                    ),
                decreases params@.len() - i,
            {
                match &*params[i] {
                    Node::FuncParam { declared_type, .. } => {
                        types.push(*declared_type);
                    },
                    other => {
                        return Err(LangError::UnsupportedNode(other.kind()));
                    },
                }
                i += 1;
            }
            let entry = Compiler::new();
            Ok(
                Function {
                    sig: Signature { name: name.clone(), params: types, ret: *return_type },
                    slots: entry.slots,
                    blocks: entry.blocks,
                },
            )
        },
        _ => Err(LangError::UnsupportedNode(decl.kind())),
    }
}

/// The first pass: registers every declaration of the program in a fresh
/// table, in order, before any body is lowered. A second declaration of a name
/// is refused.
#[verifier::loop_isolation(false)]
pub fn declare(program: &Vec<Box<Node>>) -> (r: Result<FunctionTable, LangError>)
    ensures
        table_outcome(r) == declare_spec(program@, 0, Seq::empty()),
{
    let mut table = FunctionTable { functions: Vec::new() };
    let mut i: usize = 0;
    assert(table@ =~= Seq::empty());
    while i < program.len()
        invariant
            i <= program@.len(),
            declare_spec(program@, 0, Seq::empty()) == declare_spec(program@, i as int, table@),
        decreases program@.len() - i,
    {
        let new_func = match header(&program[i]) {
            Ok(f) => f,
            Err(e) => {
                return Err(e);
            },
        };
        if get_function(&table, &new_func.sig.name).is_some() {
            return Err(LangError::DuplicateFunction(new_func.sig.name));
        }
        let ghost before = table@;
        table.functions.push(new_func);
        assert(table@ =~= before.push(new_func@));
        i += 1;
    }
    Ok(table)
}

/// What lowering one declaration into a table gives: the table with the
/// function's entry replaced by its lowered form. The entry is found by the
/// declaration's name.
pub open spec fn lower_function_spec(decl: Node, table: Seq<FunctionView>) -> Result<
    Seq<FunctionView>,
    Failure,
> {
    match decl {
        Node::FuncDecl { name, params, return_type, body } => match find_function(
            names_of(table),
            name@,
        ) {
            None => Err(Failure::UnknownFunction(name@)),
            Some(i) => match function_spec(decl, names_of(table)) {
                Err(e) => Err(e),
                Ok(f) => Ok(table.update(i as int, f)),
            },
        },
        _ => Err(Failure::UnsupportedNode(decl.kind_of())),
    }
}

/// Lowers the body of one declared function into its entry of the table. The
/// table has to hold the function already, and every function it calls. On
/// failure the table is left as it was.
pub fn lower_function(decl: &Node, table: &mut FunctionTable) -> (r: Result<(), LangError>)
    ensures
        match r {
            Ok(_) => lower_function_spec(*decl, old(table)@) == Ok::<Seq<FunctionView>, Failure>(
                final(table)@,
            ),
            Err(e) => lower_function_spec(*decl, old(table)@) == Err::<Seq<FunctionView>, Failure>(
                e@,
            ) && final(table)@ == old(table)@,
        },
{
    match decl {
        Node::FuncDecl { name, .. } => {
            let handle = match get_function(table, name) {
                Some(i) => i,
                None => {
                    return Err(LangError::UnknownFunction(name.clone()));
                },
            };
            let func = match compile_fn(decl, table) {
                Ok(f) => f,
                Err(e) => {
                    return Err(e);
                },
            };
            table.functions.set(handle, func);
            assert(table@ =~= old(table)@.update(handle as int, func@));
            Ok(())
        },
        _ => Err(LangError::UnsupportedNode(decl.kind())),
    }
}

/// Lowers a whole program in two passes: every declaration is registered
/// first, then every body is lowered. A call may therefore name a function that
/// is declared later in the program, or the function it stands in.
#[verifier::loop_isolation(false)]
pub fn compile_program(program: &Vec<Box<Node>>) -> (r: Result<FunctionTable, LangError>)
    ensures
        table_outcome(r) == program_spec(program@),
        r matches Ok(t) ==> table_ok(t@),
{
    proof {
        lemma_lowered_table_is_well_formed(program@);
    }
    let mut table = match declare(program) {
        Ok(t) => t,
        Err(e) => {
            return Err(e);
        },
    };
    let ghost declared = table@;
    let mut i: usize = 0;
    while i < program.len() && i < table.functions.len()
        invariant
            bodies_spec(program@, 0, declared) == bodies_spec(program@, i as int, table@),
        decreases program@.len() - i,
    {
        let func = match compile_fn(&program[i], &table) {
            Ok(f) => f,
            Err(e) => {
                return Err(e);
            },
        };
        let ghost before = table@;
        table.functions.set(i, func);
        assert(table@ =~= before.update(i as int, func@));
        i += 1;
    }
    Ok(table)
}

} // verus!
