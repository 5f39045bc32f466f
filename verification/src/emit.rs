//! Hands a function table to LLVM: every function is added to a module first,
//! then every body is built, block by block and instruction by instruction.
//! What is handed to LLVM, call by call, is stated over the record that the
//! cursor keeps.

use vstd::prelude::*;
use inkwell::basic_block::BasicBlock;
use inkwell::builder::BuilderError;
use inkwell::context::Context;
use inkwell::module::Module;
use inkwell::types::{FunctionType, IntType};
use inkwell::values::{FunctionValue, IntValue, PointerValue};
use crate::ast::LiteralType;
use crate::backend::{
    add_function, append_basic_block, bool_type, build_alloca, build_and, build_call,
    build_conditional_branch, build_int_add, build_int_compare, build_int_mul, build_int_neg,
    build_int_signed_div, build_int_sub, build_load, build_or, build_return, build_store,
    build_unconditional_branch, build_unreachable, const_int, create_builder, create_module,
    i32_type, int_fn_type, nth_param, position_at_end, void_fn_type, void_type, Built, Cursor,
};
use crate::cfg::{
    ids, views, Block, BlockKind, BlockView, Function, FunctionTable, FunctionView, Inst, InstView,
    Predicate, Primitive, Signature, Terminator, TerminatorView,
};
use crate::script::{
    allocas, arg_values, bits_of, block_built, blocks_made, bodies, declaration_built,
    declarations, fits, function_built, function_fits, functions_built, inst_built, insts_built,
    label_of, predicate_label, primitive_label, program_built, term_built, type_of, types_of,
    val, FunctionWiring, Types, Wiring,
};
use crate::validate::{block_ok, function_ok, inst_ok, operand_ok, table_ok, validate};

verus! {

/// Why a function table could not be handed to LLVM.
#[derive(Clone, Copy, Debug, PartialEq, Eq, Structural)]
pub enum EmitError {
    /// The table is not well formed: see `table_ok`.
    Malformed,
    /// The instruction builder refused an instruction.
    Backend,
    /// An operand names an instruction that yielded no value: a call of a
    /// function that returns nothing, or a parameter that LLVM does not have.
    NoValue,
}

/// The LLVM type of a declared type: 32 bits for `I32`, one bit for `Bool`.
fn int_type<'ctx>(types: &Types<'ctx>, ty: LiteralType) -> (t: IntType<'ctx>)
    ensures
        t == type_of(*types, ty),
{
    match ty {
        LiteralType::I32 => types.int32,
        LiteralType::Bool => types.boolean,
    }
}

/// The name that a block of the given kind gets.
pub fn label(kind: BlockKind) -> (name: &'static str)
    ensures
        name@ == label_of(kind),
{
    match kind {
        BlockKind::Entry => "entry",
        BlockKind::Then => "then",
        BlockKind::Else => "else",
        BlockKind::IfCont => "ifcont",
        BlockKind::Cond => "cond",
        BlockKind::Do => "do",
        BlockKind::WhileCont => "whilecont",
    }
}

/// The 64 bits that stand for a 32-bit number in two's complement.
pub fn const_bits(n: i32) -> (bits: u64)
    ensures
        bits == bits_of(n),
{
    if n >= 0 {
        n as u64
    } else {
        let below: u64 = (-(n + 1)) as u64;
        0xffff_ffff_ffff_ffff - below
    }
}

/// Adds a function with the given signature to the module: its type is made
/// from the types of its parameters and of what it returns, then the function
/// is added under its name.
fn declare_function<'ctx>(
    cursor: &mut Cursor<'ctx>,
    module: &Module<'ctx>,
    sig: &Signature,
    types: &Types<'ctx>,
) -> (r: (FunctionValue<'ctx>, Ghost<FunctionType<'ctx>>))
    ensures
        final(cursor).is_positioned() == old(cursor).is_positioned(),
        final(cursor).built() == old(cursor).built() + declaration_built(sig@, *types, r.1@, r.0),
{
    let mut param_types: Vec<IntType<'ctx>> = Vec::new();
    let mut i: usize = 0;
    while i < sig.params.len()
        invariant
            i <= sig.params@.len(),
            param_types@.len() == i,
            forall|k: int| 0 <= k < i ==> param_types@[k] == type_of(*types, sig.params@[k]),
        decreases sig.params@.len() - i,
    {
        param_types.push(int_type(types, sig.params[i]));
        i += 1;
    }
    assert(param_types@ =~= types_of(*types, sig@.params));
    let ghost before = cursor.built();
    let fn_type = match sig.ret {
        Some(ty) => int_fn_type(cursor, int_type(types, ty), &param_types),
        None => void_fn_type(cursor, types.void, &param_types),
    };
    let function = add_function(cursor, module, sig.name.as_str(), fn_type);
    assert(cursor.built() =~= before + declaration_built(sig@, *types, fn_type, function));
    (function, Ghost(fn_type))
}

/// The value that the instruction at position `v` yielded.
fn value_of<'ctx>(vals: &Vec<Option<IntValue<'ctx>>>, v: usize) -> (r: Result<
    IntValue<'ctx>,
    EmitError,
>)
    requires
        v < vals@.len(),
    ensures
        r == match vals@[v as int] {
            Some(x) => Ok::<IntValue<'ctx>, EmitError>(x),
            None => Err::<IntValue<'ctx>, EmitError>(EmitError::NoValue),
        },
{
    match vals[v] {
        Some(x) => Ok(x),
        None => Err(EmitError::NoValue),
    }
}

/// The name that the result of a comparison gets.
fn predicate_name(p: Predicate) -> (name: &'static str)
    ensures
        name@ == predicate_label(p),
{
    match p {
        Predicate::EQ => "eq",
        Predicate::NE => "neq",
        Predicate::SGT => "gt",
        Predicate::SLT => "lt",
        Predicate::SGE => "geq",
        Predicate::SLE => "leq",
    }
}

/// Builds the primitive `op` on two values: the builder's instruction of that
/// name, on `lhs` and `rhs` in that order. A positioned builder builds it;
/// where the builder refuses, the failure is `Backend` and nothing is built.
fn build_binary<'ctx>(cursor: &mut Cursor<'ctx>, op: Primitive, lhs: IntValue<'ctx>, rhs: IntValue<'ctx>) -> (r:
    Result<IntValue<'ctx>, EmitError>)
    ensures
        r matches Err(e) ==> e == EmitError::Backend,
        old(cursor).is_positioned() ==> r is Ok,
        final(cursor).is_positioned() == old(cursor).is_positioned(),
        final(cursor).built() == match r {
            Ok(value) => old(cursor).built().push(
                Built::Binary { op, lhs, rhs, name: primitive_label(op), value },
            ),
            Err(_) => old(cursor).built(),
        },
{
    let built = match op {
        Primitive::Add => build_int_add(cursor, lhs, rhs, "add"),
        Primitive::Sub => build_int_sub(cursor, lhs, rhs, "sub"),
        Primitive::Mul => build_int_mul(cursor, lhs, rhs, "mul"),
        Primitive::SignedDiv => build_int_signed_div(cursor, lhs, rhs, "div"),
        Primitive::And => build_and(cursor, lhs, rhs, "and"),
        Primitive::Or => build_or(cursor, lhs, rhs, "or"),
        Primitive::Compare(p) => build_int_compare(cursor, p, lhs, rhs, predicate_name(p)),
    };
    from_builder(built)
}

/// Builds the instruction at position `i` of a block and returns what it
/// yields. `vals` holds what the instructions before it yielded.
///
/// An instruction one of whose operands has no value in `vals` fails with
/// `NoValue` before the builder sees it, and no other does. A constant and a
/// parameter always succeed. Every other instruction goes to the builder,
/// which builds it if it is positioned; where the builder refuses, the failure
/// is `Backend`. A constant, a negation and a primitive yield a value; a store
/// yields none; what a parameter, a load and a call yield is LLVM's to decide.
///
/// On success the one call that the instruction stands for has been made, on
/// the values that `vals` holds for its operands; on failure none has.
fn emit_inst<'ctx>(
    cursor: &mut Cursor<'ctx>,
    types: &Types<'ctx>,
    func: &Function,
    insts: &Vec<Inst>,
    i: usize,
    vals: &Vec<Option<IntValue<'ctx>>>,
    handle: FunctionValue<'ctx>,
    slots: &Vec<PointerValue<'ctx>>,
    handles: &Vec<FunctionValue<'ctx>>,
) -> (r: Result<Option<IntValue<'ctx>>, EmitError>)
    requires
        i < insts@.len(),
        vals@.len() == i,
        slots@.len() == func.slots@.len(),
        inst_ok(
            views(insts@),
            i as int,
            slots@.len() as nat,
            func.sig.params@.len() as nat,
            handles@.len() as nat,
        ),
    ensures
        (r matches Err(EmitError::NoValue)) <==> lacks_operand(vals@, insts@[i as int]@),
        r matches Err(e) ==> e == EmitError::NoValue || e == EmitError::Backend,
        old(cursor).is_positioned() ==> !(r matches Err(EmitError::Backend)),
        succeeds_always(insts@[i as int]@) ==> r is Ok,
        r matches Ok(v) ==> (always_yields(insts@[i as int]@) ==> v is Some) && (insts@[i as int]@ is Store
            ==> v is None),
        final(cursor).is_positioned() == old(cursor).is_positioned(),
        final(cursor).built() == match r {
            Ok(v) => old(cursor).built() + inst_built(
                insts@[i as int]@,
                func@.slots,
                vals@.push(v),
                *types,
                handle,
                slots@,
                handles@,
            ),
            Err(_) => old(cursor).built(),
        },
{
    proof {
        lemma_operands_ok(
            views(insts@),
            i as int,
            slots@.len() as nat,
            func.sig.params@.len() as nat,
            handles@.len() as nat,
        );
    }
    let ghost inst = insts@[i as int]@;
    let ghost before = cursor.built();
    assert(views(insts@)[i as int] == inst);
    match &insts[i] {
        Inst::ConstInt(n) => {
            let value = const_int(cursor, types.int32, const_bits(*n));
            assert(cursor.built() =~= before + inst_built(
                inst,
                func@.slots,
                vals@.push(Some(value)),
                *types,
                handle,
                slots@,
                handles@,
            ));
            Ok(Some(value))
        },
        Inst::ConstBool(b) => {
            let bit: u64 = if *b {
                1
            } else {
                0
            };
            let value = const_int(cursor, types.boolean, bit);
            assert(cursor.built() =~= before + inst_built(
                inst,
                func@.slots,
                vals@.push(Some(value)),
                *types,
                handle,
                slots@,
                handles@,
            ));
            Ok(Some(value))
        },
        Inst::Param(k) => if *k < 0xffff_ffff {
            let value = nth_param(cursor, handle, *k as u32);
            assert(cursor.built() =~= before + inst_built(
                inst,
                func@.slots,
                vals@.push(value),
                *types,
                handle,
                slots@,
                handles@,
            ));
            Ok(value)
        } else {
            assert(before =~= before + inst_built(
                inst,
                func@.slots,
                vals@.push(None),
                *types,
                handle,
                slots@,
                handles@,
            ));
            Ok(None)
        },
        Inst::Load(slot) => {
            assert(func@.slots[*slot as int] == func.slots@[*slot as int]@);
            match from_builder(build_load(cursor, slots[*slot], func.slots[*slot].name.as_str())) {
                Ok(value) => {
                    assert(cursor.built() =~= before + inst_built(
                        inst,
                        func@.slots,
                        vals@.push(value),
                        *types,
                        handle,
                        slots@,
                        handles@,
                    ));
                    Ok(value)
                },
                Err(e) => Err(e),
            }
        },
        Inst::Store { slot, value } => {
            assert(operands_of(inst) =~= seq![*value as nat]);
            assert(operand_ok(views(insts@), i as int, operands_of(inst)[0]));
            let v = match value_of(vals, *value) {
                Ok(v) => v,
                Err(e) => {
                    assert(absent(vals@, operands_of(inst)[0]));
                    return Err(e);
                },
            };
            match from_builder(build_store(cursor, slots[*slot], v)) {
                Ok(_) => {
                    assert(cursor.built() =~= before + inst_built(
                        inst,
                        func@.slots,
                        vals@.push(None),
                        *types,
                        handle,
                        slots@,
                        handles@,
                    ));
                    Ok(None)
                },
                Err(e) => Err(e),
            }
        },
        Inst::Neg(operand) => {
            assert(operands_of(inst) =~= seq![*operand as nat]);
            assert(operand_ok(views(insts@), i as int, operands_of(inst)[0]));
            let v = match value_of(vals, *operand) {
                Ok(v) => v,
                Err(e) => {
                    assert(absent(vals@, operands_of(inst)[0]));
                    return Err(e);
                },
            };
            match from_builder(build_int_neg(cursor, v, "neg")) {
                Ok(n) => {
                    assert(cursor.built() =~= before + inst_built(
                        inst,
                        func@.slots,
                        vals@.push(Some(n)),
                        *types,
                        handle,
                        slots@,
                        handles@,
                    ));
                    Ok(Some(n))
                },
                Err(e) => Err(e),
            }
        },
        Inst::Binary { op, lhs, rhs } => {
            assert(operands_of(inst) =~= seq![*lhs as nat, *rhs as nat]);
            assert(operand_ok(views(insts@), i as int, operands_of(inst)[0]));
            assert(operand_ok(views(insts@), i as int, operands_of(inst)[1]));
            let l = match value_of(vals, *lhs) {
                Ok(v) => v,
                Err(e) => {
                    assert(absent(vals@, operands_of(inst)[0]));
                    return Err(e);
                },
            };
            let r = match value_of(vals, *rhs) {
                Ok(v) => v,
                Err(e) => {
                    assert(absent(vals@, operands_of(inst)[1]));
                    return Err(e);
                },
            };
            match build_binary(cursor, *op, l, r) {
                Ok(v) => {
                    assert(cursor.built() =~= before + inst_built(
                        inst,
                        func@.slots,
                        vals@.push(Some(v)),
                        *types,
                        handle,
                        slots@,
                        handles@,
                    ));
                    Ok(Some(v))
                },
                Err(e) => Err(e),
            }
        },
        Inst::Call { callee, args } => {
            let mut argv: Vec<IntValue<'ctx>> = Vec::new();
            let mut k: usize = 0;
            while k < args.len()
                invariant
                    k <= args@.len(),
                    i < insts@.len(),
                    vals@.len() == i,
                    insts@[i as int] == (Inst::Call { callee: *callee, args: *args }),
                    inst_ok(
                        views(insts@),
                        i as int,
                        slots@.len() as nat,
                        func.sig.params@.len() as nat,
                        handles@.len() as nat,
                    ),
                    inst == insts@[i as int]@,
                    operands_of(inst) == ids(args@),
                    cursor.built() == before,
                    cursor.is_positioned() == old(cursor).is_positioned(),
                    argv@.len() == k,
                    forall|j: int| 0 <= j < k ==> !#[trigger] absent(vals@, operands_of(inst)[j]),
                    forall|j: int| 0 <= j < k ==> #[trigger] argv@[j] == val(vals@, ids(args@)[j]),
                decreases args@.len() - k,
            {
                assert(operand_ok(views(insts@), i as int, views(insts@)[i as int]->Call_args[k as int]));
                assert(operands_of(inst)[k as int] == args@[k as int] as nat);
                match value_of(vals, args[k]) {
                    Ok(v) => argv.push(v),
                    Err(e) => {
                        assert(absent(vals@, operands_of(inst)[k as int]));
                        return Err(e);
                    },
                }
                k += 1;
            }
            match from_builder(build_call(cursor, handles[*callee], &argv, "tmp")) {
                Ok(value) => {
                    assert(argv@ =~= arg_values(ids(args@), vals@.push(value))) by {
                        assert forall|j: int| 0 <= j < args@.len() implies argv@[j] == val(
                            vals@.push(value),
                            ids(args@)[j],
                        ) by {
                            assert(operand_ok(views(insts@), i as int, operands_of(inst)[j]));
                        }
                    }
                    assert(cursor.built() =~= before + inst_built(
                        inst,
                        func@.slots,
                        vals@.push(value),
                        *types,
                        handle,
                        slots@,
                        handles@,
                    ));
                    Ok(value)
                },
                Err(e) => Err(e),
            }
        },
    }
}

/// Builds the instructions and the terminator of one block, and tells what
/// each instruction yielded. A block that lowering left without a terminator
/// can only be reached by falling off the end of a function; it is closed as
/// unreachable.
///
/// It fails with `NoValue` only where the block reads what a parameter, a
/// load or a call yields, and LLVM yielded nothing there. A positioned builder
/// refuses nothing; where the builder refuses, the failure is `Backend`.
///
/// On success the calls made are those that the instructions stand for, in
/// order, and then the one that the terminator stands for.
fn emit_block<'ctx>(
    cursor: &mut Cursor<'ctx>,
    types: &Types<'ctx>,
    func: &Function,
    block: &Block,
    handle: FunctionValue<'ctx>,
    slots: &Vec<PointerValue<'ctx>>,
    blocks: &Vec<BasicBlock<'ctx>>,
    handles: &Vec<FunctionValue<'ctx>>,
) -> (r: Result<Ghost<Seq<Option<IntValue<'ctx>>>>, EmitError>)
    requires
        slots@.len() == func.slots@.len(),
        block_ok(
            block@,
            slots@.len() as nat,
            func.sig.params@.len() as nat,
            handles@.len() as nat,
            blocks@.len() as nat,
        ),
    ensures
        r matches Err(e) ==> e == EmitError::NoValue || e == EmitError::Backend,
        r matches Err(EmitError::NoValue) ==> reads_uncertain(block@),
        old(cursor).is_positioned() ==> !(r matches Err(EmitError::Backend)),
        final(cursor).is_positioned() == old(cursor).is_positioned(),
        r matches Ok(yielded) ==> yielded@.len() == block@.insts.len() && final(cursor).built() == old(
            cursor,
        ).built() + block_built(
            block@,
            func@.slots,
            yielded@,
            *types,
            handle,
            slots@,
            blocks@,
            handles@,
        ),
{
    let ghost before = cursor.built();
    let mut vals: Vec<Option<IntValue<'ctx>>> = Vec::new();
    let mut i: usize = 0;
    assert(before =~= before + insts_built(
        block@.insts,
        func@.slots,
        vals@,
        *types,
        handle,
        slots@,
        handles@,
    ));
    while i < block.insts.len()
        invariant
            i <= block.insts@.len(),
            vals@.len() == i,
            slots@.len() == func.slots@.len(),
            block_ok(
                block@,
                slots@.len() as nat,
                func.sig.params@.len() as nat,
                handles@.len() as nat,
                blocks@.len() as nat,
            ),
            forall|j: int|
                0 <= j < i ==> ((#[trigger] vals@[j]) is None ==> block@.insts[j] is Store || uncertain(
                    block@.insts[j],
                )),
            cursor.is_positioned() == old(cursor).is_positioned(),
            cursor.built() == before + insts_built(
                block@.insts,
                func@.slots,
                vals@,
                *types,
                handle,
                slots@,
                handles@,
            ),
        decreases block.insts@.len() - i,
    {
        assert(inst_ok(
            block@.insts,
            i as int,
            slots@.len() as nat,
            func.sig.params@.len() as nat,
            handles@.len() as nat,
        ));
        assert(block@.insts[i as int] == block.insts@[i as int]@);
        let ghost done = insts_built(
            block@.insts,
            func@.slots,
            vals@,
            *types,
            handle,
            slots@,
            handles@,
        );
        let ghost earlier = vals@;
        match emit_inst(cursor, types, func, &block.insts, i, &vals, handle, slots, handles) {
            Ok(v) => {
                vals.push(v);
                proof {
                    let step = inst_built(
                        block@.insts[i as int],
                        func@.slots,
                        vals@,
                        *types,
                        handle,
                        slots@,
                        handles@,
                    );
                    assert(vals@.drop_last() =~= earlier);
                    assert(cursor.built() =~= before + (done + step));
                }
            },
            Err(e) => {
                proof {
                    if e == EmitError::NoValue {
                        lemma_missing_operand_is_uncertain(
                            block@,
                            i as int,
                            vals@,
                            slots@.len() as nat,
                            func.sig.params@.len() as nat,
                            handles@.len() as nat,
                        );
                    }
                }
                return Err(e);
            },
        }
        i += 1;
    }
    let ghost done = insts_built(block@.insts, func@.slots, vals@, *types, handle, slots@, handles@);
    let built = match block.term {
        None => build_unreachable(cursor),
        Some(Terminator::Jump(target)) => build_unconditional_branch(cursor, blocks[target]),
        Some(Terminator::Branch { cond, on_true, on_false }) => {
            let c = match value_of(&vals, cond) {
                Ok(c) => c,
                Err(e) => {
                    assert(uncertain_at(block@.insts, cond as nat));
                    return Err(e);
                },
            };
            build_conditional_branch(cursor, c, blocks[on_true], blocks[on_false])
        },
        Some(Terminator::Return(None)) => build_return(cursor, None),
        Some(Terminator::Return(Some(v))) => {
            let value = match value_of(&vals, v) {
                Ok(value) => value,
                Err(e) => {
                    assert(uncertain_at(block@.insts, v as nat));
                    return Err(e);
                },
            };
            build_return(cursor, Some(value))
        },
    };
    match from_builder(built) {
        Ok(_) => {
            assert(cursor.built() =~= before + done.push(term_built(block@.term, vals@, blocks@)));
            Ok(Ghost(vals@))
        },
        Err(e) => Err(e),
    }
}

/// Builds the body of one function: its blocks, a stack slot for each of its
/// slots at the head of the entry block, then the contents of every block. It
/// tells what handles LLVM gave.
///
/// The builder is put at the entry block before anything is built, so it
/// refuses nothing. The body fails only with `NoValue`, and only where one of
/// its blocks reads what a parameter, a load or a call yields, and LLVM yielded
/// nothing there.
fn emit_function<'ctx>(
    context: &'ctx Context,
    cursor: &mut Cursor<'ctx>,
    types: &Types<'ctx>,
    func: &Function,
    handle: FunctionValue<'ctx>,
    handles: &Vec<FunctionValue<'ctx>>,
) -> (r: Result<Ghost<FunctionWiring<'ctx>>, EmitError>)
    requires
        function_ok(func@, handles@.len() as nat),
    ensures
        r matches Err(e) ==> e == EmitError::NoValue,
        r is Err ==> exists|b: int|
            0 <= b < func@.blocks.len() && reads_uncertain(#[trigger] func@.blocks[b]),
        final(cursor).is_positioned(),
        r matches Ok(w) ==> function_fits(func@, w@) && final(cursor).built() == old(cursor).built()
            + function_built(func@, w@, *types, handle, handles@),
{
    let ghost before = cursor.built();
    let mut blocks: Vec<BasicBlock<'ctx>> = Vec::new();
    let mut b: usize = 0;
    assert(before =~= before + blocks_made(func@.blocks, handle, blocks@));
    while b < func.blocks.len()
        invariant
            b <= func.blocks@.len(),
            blocks@.len() == b,
            cursor.built() == before + blocks_made(func@.blocks, handle, blocks@),
        decreases func.blocks@.len() - b,
    {
        let ghost made = blocks@;
        let ghost done = blocks_made(func@.blocks, handle, made);
        assert(func@.blocks[b as int] == func.blocks@[b as int]@);
        let block = append_basic_block(cursor, context, handle, label(func.blocks[b].kind));
        blocks.push(block);
        proof {
            assert(blocks@.drop_last() =~= made);
            assert(cursor.built() =~= before + blocks_made(func@.blocks, handle, blocks@));
        }
        b += 1;
    }
    position_at_end(cursor, blocks[0]);
    let ghost head = before + blocks_made(func@.blocks, handle, blocks@).push(
        Built::Position { block: blocks@[0] },
    );
    let mut slots: Vec<PointerValue<'ctx>> = Vec::new();
    let mut s: usize = 0;
    assert(cursor.built() =~= head + allocas(func@.slots, *types, slots@));
    while s < func.slots.len()
        invariant
            s <= func.slots@.len(),
            slots@.len() == s,
            cursor.is_positioned(),
            cursor.built() == head + allocas(func@.slots, *types, slots@),
        decreases func.slots@.len() - s,
    {
        let ghost made = slots@;
        assert(func@.slots[s as int] == func.slots@[s as int]@);
        let ty = int_type(types, func.slots[s].ty);
        match from_builder(build_alloca(cursor, ty, func.slots[s].name.as_str())) {
            Ok(ptr) => {
                slots.push(ptr);
                proof {
                    assert(slots@.drop_last() =~= made);
                    assert(cursor.built() =~= head + allocas(func@.slots, *types, slots@));
                }
            },
            Err(e) => {
                return Err(e);
            },
        }
        s += 1;
    }
    let ghost body = head + allocas(func@.slots, *types, slots@);
    let ghost mut values: Seq<Seq<Option<IntValue<'ctx>>>> = Seq::empty();
    assert(cursor.built() =~= body + bodies(
        func@,
        values,
        *types,
        handle,
        slots@,
        blocks@,
        handles@,
    ));
    let mut b: usize = 0;
    while b < func.blocks.len()
        invariant
            b <= func.blocks@.len(),
            blocks@.len() == func.blocks@.len(),
            slots@.len() == func.slots@.len(),
            function_ok(func@, handles@.len() as nat),
            cursor.is_positioned(),
            values.len() == b,
            forall|k: int|
                0 <= k < b ==> (#[trigger] values[k]).len() == func@.blocks[k].insts.len(),
            cursor.built() == body + bodies(
                func@,
                values,
                *types,
                handle,
                slots@,
                blocks@,
                handles@,
            ),
        decreases func.blocks@.len() - b,
    {
        let ghost earlier = values;
        let ghost done = bodies(func@, earlier, *types, handle, slots@, blocks@, handles@);
        position_at_end(cursor, blocks[b]);
        assert(func@.blocks[b as int] == func.blocks@[b as int]@);
        match emit_block(cursor, types, func, &func.blocks[b], handle, &slots, &blocks, handles) {
            Ok(yielded) => {
                proof {
                    values = values.push(yielded@);
                    assert(values.drop_last() =~= earlier);
                    let filled = block_built(
                        func@.blocks[b as int],
                        func@.slots,
                        yielded@,
                        *types,
                        handle,
                        slots@,
                        blocks@,
                        handles@,
                    );
                    assert(cursor.built() =~= body + (done.push(
                        Built::Position { block: blocks@[b as int] },
                    ) + filled));
                }
            },
            Err(e) => {
                assert(e == EmitError::NoValue ==> reads_uncertain(func@.blocks[b as int]));
                return Err(e);
            },
        }
        b += 1;
    }
    let ghost wiring = FunctionWiring { slots: slots@, blocks: blocks@, values };
    assert(cursor.built() =~= before + function_built(func@, wiring, *types, handle, handles@));
    Ok(Ghost(wiring))
}

/// A module that was built from a function table, with the cursor that built
/// it, which holds the record of the calls that were made, and the handles
/// that LLVM gave.
pub struct Emitted<'ctx> {
    pub module: Module<'ctx>,
    pub cursor: Cursor<'ctx>,
    pub wiring: Ghost<Wiring<'ctx>>,
}

/// Builds an LLVM module, named `name`, from a function table. Every function
/// is added to the module before any body is built, so that a call finds its
/// callee wherever in the table the callee stands.
///
/// A table that is not well formed is refused before LLVM sees any of it. A
/// well-formed one becomes a module, unless one of its blocks reads what a
/// parameter, a load or a call yields and LLVM yielded nothing there: then the
/// failure is `NoValue`. A table without functions always becomes a module.
///
/// The module comes back with the record of the calls that made it. The calls
/// are exactly those that the table stands for: see `program_built`.
pub fn emit_program<'ctx>(table: &FunctionTable, context: &'ctx Context, name: &str) -> (r: Result<
    Emitted<'ctx>,
    EmitError,
>)
    ensures
        (r matches Err(EmitError::Malformed)) <==> !table_ok(table@),
        !(r matches Err(EmitError::Backend)),
        r matches Err(EmitError::NoValue) ==> table_reads_uncertain(table@),
        table@.len() == 0 ==> r is Ok,
        r matches Ok(done) ==> {
            &&& done.wiring@.module == done.module
            &&& fits(table@, done.wiring@)
            &&& done.cursor.built() == program_built(table@, name@, done.wiring@)
        },
{
    if !validate(table) {
        return Err(EmitError::Malformed);
    }
    let mut cursor = create_builder(context);
    let module = create_module(&mut cursor, context, name);
    let int32 = i32_type(&mut cursor, context);
    let boolean = bool_type(&mut cursor, context);
    let void = void_type(&mut cursor, context);
    let types = Types { int32, boolean, void };
    let ghost prologue = seq![
        Built::Module { name: name@, module },
        Built::I32Type { ty: int32 },
        Built::BoolType { ty: boolean },
        Built::VoidType { ty: void },
    ];
    assert(cursor.built() =~= prologue);
    let mut handles: Vec<FunctionValue<'ctx>> = Vec::new();
    let ghost mut fn_types: Seq<FunctionType<'ctx>> = Seq::empty();
    let mut i: usize = 0;
    assert(cursor.built() =~= prologue + declarations(table@, types, fn_types, handles@));
    while i < table.functions.len()
        invariant
            i <= table.functions@.len(),
            handles@.len() == i,
            fn_types.len() == i,
            cursor.built() == prologue + declarations(table@, types, fn_types, handles@),
        decreases table.functions@.len() - i,
    {
        let ghost earlier_types = fn_types;
        let ghost earlier = handles@;
        let ghost done = declarations(table@, types, earlier_types, earlier);
        assert(table@[i as int] == table.functions@[i as int]@);
        let (function, fn_type) = declare_function(
            &mut cursor,
            &module,
            &table.functions[i].sig,
            &types,
        );
        handles.push(function);
        proof {
            fn_types = fn_types.push(fn_type@);
            assert(fn_types.drop_last() =~= earlier_types);
            assert(handles@.drop_last() =~= earlier);
            assert(cursor.built() =~= prologue + (done + declaration_built(
                table@[i as int].sig,
                types,
                fn_type@,
                function,
            )));
        }
        i += 1;
    }
    let ghost head = prologue + declarations(table@, types, fn_types, handles@);
    let ghost mut wirings: Seq<FunctionWiring<'ctx>> = Seq::empty();
    assert(cursor.built() =~= head + functions_built(table@, types, handles@, wirings));
    let mut i: usize = 0;
    while i < table.functions.len()
        invariant
            i <= table.functions@.len(),
            handles@.len() == table.functions@.len(),
            table_ok(table@),
            wirings.len() == i,
            forall|f: int| 0 <= f < i ==> function_fits(table@[f], #[trigger] wirings[f]),
            cursor.built() == head + functions_built(table@, types, handles@, wirings),
        decreases table.functions@.len() - i,
    {
        let ghost earlier = wirings;
        let ghost done = functions_built(table@, types, handles@, earlier);
        assert(table@[i as int] == table.functions@[i as int]@);
        match emit_function(context, &mut cursor, &types, &table.functions[i], handles[i], &handles) {
            Ok(w) => {
                proof {
                    wirings = wirings.push(w@);
                    assert(wirings.drop_last() =~= earlier);
                    assert(cursor.built() =~= head + (done + function_built(
                        table@[i as int],
                        w@,
                        types,
                        handles@[i as int],
                        handles@,
                    )));
                }
            },
            Err(e) => {
                assert(exists|b: int|
                    0 <= b < table@[i as int].blocks.len() && reads_uncertain(
                        #[trigger] table@[i as int].blocks[b],
                    ));
                return Err(e);
            },
        }
        i += 1;
    }
    let ghost wiring = Wiring { module, types, fn_types, handles: handles@, functions: wirings };
    assert(cursor.built() =~= program_built(table@, name@, wiring));
    Ok(Emitted { module, cursor, wiring: Ghost(wiring) })
}

/// What an answer of the builder means to the caller: its value where the
/// builder gave one, and `Backend` where it refused.
pub fn from_builder<T>(built: Result<T, BuilderError>) -> (r: Result<T, EmitError>)
    ensures
        r == match built {
            Ok(v) => Ok::<T, EmitError>(v),
            Err(_) => Err::<T, EmitError>(EmitError::Backend),
        },
{
    match built {
        Ok(v) => Ok(v),
        Err(_) => Err(EmitError::Backend),
    }
}

/// The positions whose values an instruction reads, in the order in which it
/// reads them.
pub open spec fn operands_of(inst: InstView) -> Seq<nat> {
    match inst {
        InstView::Store { slot, value } => seq![value],
        InstView::Neg(v) => seq![v],
        InstView::Binary { op, lhs, rhs } => seq![lhs, rhs],
        InstView::Call { callee, args } => args,
        _ => Seq::empty(),
    }
}

/// `vals` holds no value at position `v`.
pub open spec fn absent<T>(vals: Seq<Option<T>>, v: nat) -> bool {
    v < vals.len() && vals[v as int] is None
}

/// Some operand of `inst` names a position at which `vals` holds no value.
pub open spec fn lacks_operand<T>(vals: Seq<Option<T>>, inst: InstView) -> bool {
    exists|k: int| 0 <= k < operands_of(inst).len() && #[trigger] absent(vals, operands_of(inst)[k])
}

/// The instructions that are built without the builder: nothing can refuse them.
pub open spec fn succeeds_always(inst: InstView) -> bool {
    inst is ConstInt || inst is ConstBool || inst is Param
}

/// The instructions that yield a value whenever they are built.
pub open spec fn always_yields(inst: InstView) -> bool {
    inst is ConstInt || inst is ConstBool || inst is Neg || inst is Binary
}

/// The instructions of which LLVM decides whether they yield a value.
pub open spec fn uncertain(inst: InstView) -> bool {
    inst is Param || inst is Load || inst is Call
}

/// Position `v` of `code` holds an instruction of which LLVM decides whether it
/// yields a value.
pub open spec fn uncertain_at(code: Seq<InstView>, v: nat) -> bool {
    v < code.len() && uncertain(code[v as int])
}

/// The position that operand `k` of the instruction at position `i` names.
pub open spec fn reads(code: Seq<InstView>, i: int, k: int) -> nat {
    operands_of(code[i])[k]
}

/// The position whose value a terminator reads, if it reads one.
pub open spec fn term_operand(term: Option<TerminatorView>) -> Option<nat> {
    match term {
        Some(TerminatorView::Branch { cond, on_true, on_false }) => Some(cond),
        Some(TerminatorView::Return(Some(v))) => Some(v),
        _ => None,
    }
}

/// An instruction of the block, or its terminator, reads what a parameter, a
/// load or a call yields.
pub open spec fn reads_uncertain(b: BlockView) -> bool {
    ||| exists|i: int, k: int|
        0 <= i < b.insts.len() && 0 <= k < operands_of(b.insts[i]).len() && uncertain_at(
            b.insts,
            #[trigger] reads(b.insts, i, k),
        )
    ||| term_operand(b.term) matches Some(v) && uncertain_at(b.insts, v)
}

/// Some block of some function of the table reads what a parameter, a load or
/// a call yields.
pub open spec fn table_reads_uncertain(table: Seq<FunctionView>) -> bool {
    exists|f: int, b: int|
        0 <= f < table.len() && 0 <= b < table[f].blocks.len() && reads_uncertain(
            #[trigger] table[f].blocks[b],
        )
}

/// Every operand of an instruction that is in order names an earlier
/// instruction that is no store.
pub proof fn lemma_operands_ok(code: Seq<InstView>, i: int, nslots: nat, nparams: nat, nfuncs: nat)
    requires
        0 <= i < code.len(),
        inst_ok(code, i, nslots, nparams, nfuncs),
    ensures
        forall|k: int|
            0 <= k < operands_of(code[i]).len() ==> operand_ok(code, i, #[trigger] operands_of(code[i])[k]),
{
    match code[i] {
        InstView::Call { callee, args } => {
            assert forall|k: int| 0 <= k < args.len() implies operand_ok(
                code,
                i,
                #[trigger] args[k],
            ) by {
                assert(operand_ok(code, i, args[k]));
            }
        },
        _ => {},
    }
}

/// Where an instruction of a block lacks an operand, and so far only stores and
/// instructions of which LLVM decides have yielded nothing, the block reads
/// what such an instruction yields.
proof fn lemma_missing_operand_is_uncertain<T>(
    b: BlockView,
    i: int,
    vals: Seq<Option<T>>,
    nslots: nat,
    nparams: nat,
    nfuncs: nat,
)
    requires
        0 <= i < b.insts.len(),
        vals.len() == i,
        inst_ok(b.insts, i, nslots, nparams, nfuncs),
        lacks_operand(vals, b.insts[i]),
        forall|j: int|
            0 <= j < i ==> ((#[trigger] vals[j]) is None ==> b.insts[j] is Store || uncertain(
                b.insts[j],
            )),
    ensures
        reads_uncertain(b),
{
    lemma_operands_ok(b.insts, i, nslots, nparams, nfuncs);
    let inst = b.insts[i];
    let k = choose|k: int| 0 <= k < operands_of(inst).len() && #[trigger] absent(vals, operands_of(inst)[k]);
    let v = operands_of(inst)[k];
    assert(operand_ok(b.insts, i, v));
    assert(vals[v as int] is None);
    assert(uncertain_at(b.insts, reads(b.insts, i, k)));
}

} // verus!
