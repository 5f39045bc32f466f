//! What emission does to LLVM, as a function of the function table: the calls
//! that are made, in their order, each with what it is handed. The handles
//! that LLVM gives back are not known beforehand; a `Wiring` names them, and
//! the calls are stated over it.

use vstd::prelude::*;
use inkwell::basic_block::BasicBlock;
use inkwell::module::Module;
use inkwell::types::{FunctionType, IntType, VoidType};
use inkwell::values::{FunctionValue, IntValue, PointerValue};
use crate::ast::LiteralType;
use crate::backend::Built;
use crate::cfg::{
    BlockKind, BlockView, FunctionView, InstView, Predicate, Primitive, SignatureView, SlotView,
    TerminatorView,
};

verus! {

/// The types of LLVM that the language's types stand for.
pub struct Types<'ctx> {
    pub int32: IntType<'ctx>,
    pub boolean: IntType<'ctx>,
    pub void: VoidType<'ctx>,
}

/// The handles that LLVM gave for one function: its slots, its blocks, and for
/// every block what each of its instructions yielded.
pub struct FunctionWiring<'ctx> {
    pub slots: Seq<PointerValue<'ctx>>,
    pub blocks: Seq<BasicBlock<'ctx>>,
    pub values: Seq<Seq<Option<IntValue<'ctx>>>>,
}

/// The handles that LLVM gave for a whole table.
pub struct Wiring<'ctx> {
    pub module: Module<'ctx>,
    pub types: Types<'ctx>,
    pub fn_types: Seq<FunctionType<'ctx>>,
    pub handles: Seq<FunctionValue<'ctx>>,
    pub functions: Seq<FunctionWiring<'ctx>>,
}

/// The LLVM type of a declared type: 32 bits for `I32`, one bit for `Bool`.
pub open spec fn type_of<'ctx>(types: Types<'ctx>, ty: LiteralType) -> IntType<'ctx> {
    match ty {
        LiteralType::I32 => types.int32,
        LiteralType::Bool => types.boolean,
    }
}

/// The LLVM types of a list of declared types.
pub open spec fn types_of<'ctx>(types: Types<'ctx>, tys: Seq<LiteralType>) -> Seq<IntType<'ctx>> {
    Seq::new(tys.len(), |k: int| type_of(types, tys[k]))
}

/// The name that a block of the given kind gets.
pub open spec fn label_of(kind: BlockKind) -> Seq<char> {
    match kind {
        BlockKind::Entry => "entry"@,
        BlockKind::Then => "then"@,
        BlockKind::Else => "else"@,
        BlockKind::IfCont => "ifcont"@,
        BlockKind::Cond => "cond"@,
        BlockKind::Do => "do"@,
        BlockKind::WhileCont => "whilecont"@,
    }
}

/// The name that the result of a comparison gets.
pub open spec fn predicate_label(p: Predicate) -> Seq<char> {
    match p {
        Predicate::EQ => "eq"@,
        Predicate::NE => "neq"@,
        Predicate::SGT => "gt"@,
        Predicate::SLT => "lt"@,
        Predicate::SGE => "geq"@,
        Predicate::SLE => "leq"@,
    }
}

/// The name that the result of a primitive gets.
pub open spec fn primitive_label(op: Primitive) -> Seq<char> {
    match op {
        Primitive::Add => "add"@,
        Primitive::Sub => "sub"@,
        Primitive::Mul => "mul"@,
        Primitive::SignedDiv => "div"@,
        Primitive::And => "and"@,
        Primitive::Or => "or"@,
        Primitive::Compare(p) => predicate_label(p),
    }
}

/// A 32-bit number as the 64 bits that stand for it in two's complement.
pub open spec fn bits_of(n: i32) -> u64 {
    if n >= 0 {
        n as u64
    } else {
        (0xffff_ffff_ffff_ffff - (-(n + 1))) as u64
    }
}

/// The value that the instruction at position `v` yielded.
pub open spec fn val<T>(vals: Seq<Option<T>>, v: nat) -> T {
    vals[v as int]->Some_0
}

/// The values that the arguments of a call name.
pub open spec fn arg_values<T>(args: Seq<nat>, vals: Seq<Option<T>>) -> Seq<T> {
    Seq::new(args.len(), |k: int| val(vals, args[k]))
}

/// The call that the last of the instructions in `vals` becomes. `vals` holds
/// what that instruction and those before it yielded; operands are read there.
/// A constant becomes a constant of its width, a parameter a read of the
/// function's parameter, a load and a store a load and a store of the slot,
/// a negation, a primitive and a call the builder's instruction of that name,
/// on the values of their operands in the order in which the instruction
/// names them.
pub open spec fn inst_built<'ctx>(
    inst: InstView,
    names: Seq<SlotView>,
    vals: Seq<Option<IntValue<'ctx>>>,
    types: Types<'ctx>,
    function: FunctionValue<'ctx>,
    slots: Seq<PointerValue<'ctx>>,
    handles: Seq<FunctionValue<'ctx>>,
) -> Seq<Built<'ctx>> {
    let own = vals.last();
    match inst {
        InstView::ConstInt(n) => seq![
            Built::Constant { ty: types.int32, bits: bits_of(n), value: own->Some_0 },
        ],
        InstView::ConstBool(b) => seq![
            Built::Constant {
                ty: types.boolean,
                bits: if b {
                    1u64
                } else {
                    0u64
                },
                value: own->Some_0,
            },
        ],
        InstView::Param(k) => if k < 0xffff_ffff {
            seq![Built::Parameter { function, index: k as u32, value: own }]
        } else {
            Seq::empty()
        },
        InstView::Load(slot) => seq![
            Built::Load { slot: slots[slot as int], name: names[slot as int].name, value: own },
        ],
        InstView::Store { slot, value } => seq![
            Built::Store { slot: slots[slot as int], value: val(vals, value) },
        ],
        InstView::Neg(v) => seq![
            Built::Neg { operand: val(vals, v), name: "neg"@, value: own->Some_0 },
        ],
        InstView::Binary { op, lhs, rhs } => seq![
            Built::Binary {
                op,
                lhs: val(vals, lhs),
                rhs: val(vals, rhs),
                name: primitive_label(op),
                value: own->Some_0,
            },
        ],
        InstView::Call { callee, args } => seq![
            Built::Call {
                callee: handles[callee as int],
                args: arg_values(args, vals),
                name: "tmp"@,
                value: own,
            },
        ],
    }
}

/// The calls that the first instructions of a block become, as many as `vals`
/// holds values for.
pub open spec fn insts_built<'ctx>(
    insts: Seq<InstView>,
    names: Seq<SlotView>,
    vals: Seq<Option<IntValue<'ctx>>>,
    types: Types<'ctx>,
    function: FunctionValue<'ctx>,
    slots: Seq<PointerValue<'ctx>>,
    handles: Seq<FunctionValue<'ctx>>,
) -> Seq<Built<'ctx>>
    decreases vals.len(),
{
    if vals.len() == 0 {
        Seq::empty()
    } else {
        insts_built(insts, names, vals.drop_last(), types, function, slots, handles) + inst_built(
            insts[vals.len() - 1],
            names,
            vals,
            types,
            function,
            slots,
            handles,
        )
    }
}

/// The call that ends a block: a jump or a branch to the blocks of the targets,
/// a return of the value named, or the mark that a block left open gets.
pub open spec fn term_built<'ctx>(
    term: Option<TerminatorView>,
    vals: Seq<Option<IntValue<'ctx>>>,
    blocks: Seq<BasicBlock<'ctx>>,
) -> Built<'ctx> {
    match term {
        None => Built::Unreachable,
        Some(TerminatorView::Jump(target)) => Built::Jump { target: blocks[target as int] },
        Some(TerminatorView::Branch { cond, on_true, on_false }) => Built::Branch {
            cond: val(vals, cond),
            on_true: blocks[on_true as int],
            on_false: blocks[on_false as int],
        },
        Some(TerminatorView::Return(None)) => Built::Return { value: None },
        Some(TerminatorView::Return(Some(v))) => Built::Return { value: Some(val(vals, v)) },
    }
}

/// The calls that a block becomes: its instructions in order, then its end.
pub open spec fn block_built<'ctx>(
    block: BlockView,
    names: Seq<SlotView>,
    vals: Seq<Option<IntValue<'ctx>>>,
    types: Types<'ctx>,
    function: FunctionValue<'ctx>,
    slots: Seq<PointerValue<'ctx>>,
    blocks: Seq<BasicBlock<'ctx>>,
    handles: Seq<FunctionValue<'ctx>>,
) -> Seq<Built<'ctx>> {
    insts_built(block.insts, names, vals, types, function, slots, handles).push(
        term_built(block.term, vals, blocks),
    )
}

/// The calls that make the first blocks of a function, as many as `made` holds:
/// each is appended to the function under the name of its kind.
pub open spec fn blocks_made<'ctx>(
    blocks: Seq<BlockView>,
    function: FunctionValue<'ctx>,
    made: Seq<BasicBlock<'ctx>>,
) -> Seq<Built<'ctx>>
    decreases made.len(),
{
    if made.len() == 0 {
        Seq::empty()
    } else {
        blocks_made(blocks, function, made.drop_last()).push(
            Built::Block {
                function,
                label: label_of(blocks[made.len() - 1].kind),
                block: made.last(),
            },
        )
    }
}

/// The calls that make the first slots of a function, as many as `made` holds:
/// each is allocated with the type and under the name of its slot.
pub open spec fn allocas<'ctx>(
    names: Seq<SlotView>,
    types: Types<'ctx>,
    made: Seq<PointerValue<'ctx>>,
) -> Seq<Built<'ctx>>
    decreases made.len(),
{
    if made.len() == 0 {
        Seq::empty()
    } else {
        allocas(names, types, made.drop_last()).push(
            Built::Alloca {
                ty: type_of(types, names[made.len() - 1].ty),
                name: names[made.len() - 1].name,
                slot: made.last(),
            },
        )
    }
}

/// The calls that fill the first blocks of a function, as many as `values`
/// holds: the builder is put at the end of each block, then the block is built.
pub open spec fn bodies<'ctx>(
    func: FunctionView,
    values: Seq<Seq<Option<IntValue<'ctx>>>>,
    types: Types<'ctx>,
    function: FunctionValue<'ctx>,
    slots: Seq<PointerValue<'ctx>>,
    blocks: Seq<BasicBlock<'ctx>>,
    handles: Seq<FunctionValue<'ctx>>,
) -> Seq<Built<'ctx>>
    decreases values.len(),
{
    if values.len() == 0 {
        Seq::empty()
    } else {
        let k = values.len() - 1;
        bodies(func, values.drop_last(), types, function, slots, blocks, handles).push(
            Built::Position { block: blocks[k] },
        ) + block_built(
            func.blocks[k],
            func.slots,
            values.last(),
            types,
            function,
            slots,
            blocks,
            handles,
        )
    }
}

/// The wiring has a handle for every slot and block of the function, and a
/// value or none for every instruction.
pub open spec fn function_fits<'ctx>(func: FunctionView, w: FunctionWiring<'ctx>) -> bool {
    &&& w.slots.len() == func.slots.len()
    &&& w.blocks.len() == func.blocks.len()
    &&& w.values.len() == func.blocks.len()
    &&& forall|b: int|
        0 <= b < func.blocks.len() ==> (#[trigger] w.values[b]).len() == func.blocks[b].insts.len()
}

/// The calls that the body of a function becomes: all its blocks are made; the
/// builder is put at the entry block and all slots are allocated there; then
/// every block is filled, in order.
pub open spec fn function_built<'ctx>(
    func: FunctionView,
    w: FunctionWiring<'ctx>,
    types: Types<'ctx>,
    function: FunctionValue<'ctx>,
    handles: Seq<FunctionValue<'ctx>>,
) -> Seq<Built<'ctx>> {
    blocks_made(func.blocks, function, w.blocks).push(Built::Position { block: w.blocks[0] })
        + allocas(func.slots, types, w.slots) + bodies(
        func,
        w.values,
        types,
        function,
        w.slots,
        w.blocks,
        handles,
    )
}

/// The calls that add one function to the module: its type is made from the
/// types of its parameters and of what it returns, then the function is added
/// under its name.
pub open spec fn declaration_built<'ctx>(
    sig: SignatureView,
    types: Types<'ctx>,
    fn_type: FunctionType<'ctx>,
    function: FunctionValue<'ctx>,
) -> Seq<Built<'ctx>> {
    seq![
        match sig.ret {
            Some(ty) => Built::IntFnType {
                ret: type_of(types, ty),
                params: types_of(types, sig.params),
                ty: fn_type,
            },
            None => Built::VoidFnType {
                ret: types.void,
                params: types_of(types, sig.params),
                ty: fn_type,
            },
        },
        Built::Function { name: sig.name, ty: fn_type, function },
    ]
}

/// The calls that add the first functions of a table, as many as `handles`
/// holds.
pub open spec fn declarations<'ctx>(
    table: Seq<FunctionView>,
    types: Types<'ctx>,
    fn_types: Seq<FunctionType<'ctx>>,
    handles: Seq<FunctionValue<'ctx>>,
) -> Seq<Built<'ctx>>
    decreases handles.len(),
{
    if handles.len() == 0 {
        Seq::empty()
    } else {
        declarations(table, types, fn_types.drop_last(), handles.drop_last()) + declaration_built(
            table[handles.len() - 1].sig,
            types,
            fn_types.last(),
            handles.last(),
        )
    }
}

/// The calls that the bodies of the first functions of a table become, as many
/// as `wirings` holds.
pub open spec fn functions_built<'ctx>(
    table: Seq<FunctionView>,
    types: Types<'ctx>,
    handles: Seq<FunctionValue<'ctx>>,
    wirings: Seq<FunctionWiring<'ctx>>,
) -> Seq<Built<'ctx>>
    decreases wirings.len(),
{
    if wirings.len() == 0 {
        Seq::empty()
    } else {
        let k = wirings.len() - 1;
        functions_built(table, types, handles, wirings.drop_last()) + function_built(
            table[k],
            wirings.last(),
            types,
            handles[k],
            handles,
        )
    }
}

/// The wiring has handles for every function of the table and all that is in it.
pub open spec fn fits<'ctx>(table: Seq<FunctionView>, w: Wiring<'ctx>) -> bool {
    &&& w.fn_types.len() == table.len()
    &&& w.handles.len() == table.len()
    &&& w.functions.len() == table.len()
    &&& forall|f: int| 0 <= f < table.len() ==> function_fits(table[f], #[trigger] w.functions[f])
}

/// All the calls into LLVM that make a module of a function table: the module
/// and the three types are asked for; every function is added; then every
/// body is built.
pub open spec fn program_built<'ctx>(table: Seq<FunctionView>, name: Seq<char>, w: Wiring<'ctx>) -> Seq<
    Built<'ctx>,
> {
    seq![
        Built::Module { name, module: w.module },
        Built::I32Type { ty: w.types.int32 },
        Built::BoolType { ty: w.types.boolean },
        Built::VoidType { ty: w.types.void },
    ] + declarations(table, w.types, w.fn_types, w.handles) + functions_built(
        table,
        w.types,
        w.handles,
        w.functions,
    )
}

} // verus!
