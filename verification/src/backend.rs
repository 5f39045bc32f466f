//! The door to LLVM. Everything here is believed, not proved: the declarations
//! make the types of `inkwell` known to Verus, and each function stands for one
//! function of `inkwell`, converts what goes in and what comes out, and states
//! no more than that function's own code shows.
//!
//! Of the values that LLVM hands back nothing is claimed. Two things are kept
//! of what was done. A `Cursor` holds the instruction builder together with
//! the fact whether it has been positioned: the builder refuses an instruction
//! only while it never has been. And it holds the record of the calls made:
//! each function below adds to the record the call it stands for, with what
//! was handed to it and what came back.
//!
//! LLVM checks no types while instructions are built: operands of the wrong
//! width give a module that LLVM's own verifier refuses, not a failure here.

use vstd::prelude::*;
use inkwell::basic_block::BasicBlock;
use inkwell::builder::{Builder, BuilderError};
use inkwell::context::Context;
use inkwell::module::Module;
use inkwell::types::{BasicMetadataTypeEnum, FunctionType, IntType, VoidType};
use inkwell::values::{BasicMetadataValueEnum, FunctionValue, IntValue, PointerValue};
use inkwell::IntPredicate;
use crate::cfg::{Predicate, Primitive};

verus! {

/// `inkwell::context::Context`: an LLVM context, which owns types and constants. Opaque to Verus.
#[verifier::external_type_specification]
#[verifier::external_body]
pub struct ExContext(inkwell::context::Context);

/// `inkwell::module::Module`: an LLVM module, a set of functions. Opaque to Verus.
#[verifier::external_type_specification]
#[verifier::external_body]
pub struct ExModule<'ctx>(inkwell::module::Module<'ctx>);

/// `inkwell::builder::Builder`: the cursor that appends instructions to a block. Opaque to Verus.
#[verifier::external_type_specification]
#[verifier::external_body]
pub struct ExBuilder<'ctx>(inkwell::builder::Builder<'ctx>);

/// `inkwell::builder::BuilderError`: why the builder refused an instruction. Opaque to Verus.
#[verifier::external_type_specification]
#[verifier::external_body]
pub struct ExBuilderError(inkwell::builder::BuilderError);

/// `inkwell::types::IntType`: an integer type of some width. Opaque to Verus.
#[verifier::external_type_specification]
#[verifier::external_body]
pub struct ExIntType<'ctx>(inkwell::types::IntType<'ctx>);

/// `inkwell::types::VoidType`: the type of nothing. Opaque to Verus.
#[verifier::external_type_specification]
#[verifier::external_body]
pub struct ExVoidType<'ctx>(inkwell::types::VoidType<'ctx>);

/// `inkwell::types::FunctionType`: parameter types and a return type. Opaque to Verus.
#[verifier::external_type_specification]
#[verifier::external_body]
pub struct ExFunctionType<'ctx>(inkwell::types::FunctionType<'ctx>);

/// `inkwell::values::FunctionValue`: a function of a module. Opaque to Verus.
#[verifier::external_type_specification]
#[verifier::external_body]
pub struct ExFunctionValue<'ctx>(inkwell::values::FunctionValue<'ctx>);

/// `inkwell::values::IntValue`: a value of an integer type. Opaque to Verus.
#[verifier::external_type_specification]
#[verifier::external_body]
pub struct ExIntValue<'ctx>(inkwell::values::IntValue<'ctx>);

/// `inkwell::values::PointerValue`: an address, here always of a stack slot. Opaque to Verus.
#[verifier::external_type_specification]
#[verifier::external_body]
pub struct ExPointerValue<'ctx>(inkwell::values::PointerValue<'ctx>);

/// `inkwell::basic_block::BasicBlock`: a basic block of a function. Opaque to Verus.
#[verifier::external_type_specification]
#[verifier::external_body]
pub struct ExBasicBlock<'ctx>(inkwell::basic_block::BasicBlock<'ctx>);

/// One call into LLVM: what it was handed, and what it gave back.
#[allow(inconsistent_fields)]
pub enum Built<'ctx> {
    Module { name: Seq<char>, module: Module<'ctx> },
    I32Type { ty: IntType<'ctx> },
    BoolType { ty: IntType<'ctx> },
    VoidType { ty: VoidType<'ctx> },
    IntFnType { ret: IntType<'ctx>, params: Seq<IntType<'ctx>>, ty: FunctionType<'ctx> },
    VoidFnType { ret: VoidType<'ctx>, params: Seq<IntType<'ctx>>, ty: FunctionType<'ctx> },
    Function { name: Seq<char>, ty: FunctionType<'ctx>, function: FunctionValue<'ctx> },
    Block { function: FunctionValue<'ctx>, label: Seq<char>, block: BasicBlock<'ctx> },
    Position { block: BasicBlock<'ctx> },
    Constant { ty: IntType<'ctx>, bits: u64, value: IntValue<'ctx> },
    Parameter { function: FunctionValue<'ctx>, index: u32, value: Option<IntValue<'ctx>> },
    Alloca { ty: IntType<'ctx>, name: Seq<char>, slot: PointerValue<'ctx> },
    Store { slot: PointerValue<'ctx>, value: IntValue<'ctx> },
    Load { slot: PointerValue<'ctx>, name: Seq<char>, value: Option<IntValue<'ctx>> },
    Neg { operand: IntValue<'ctx>, name: Seq<char>, value: IntValue<'ctx> },
    Binary {
        op: Primitive,
        lhs: IntValue<'ctx>,
        rhs: IntValue<'ctx>,
        name: Seq<char>,
        value: IntValue<'ctx>,
    },
    Call {
        callee: FunctionValue<'ctx>,
        args: Seq<IntValue<'ctx>>,
        name: Seq<char>,
        value: Option<IntValue<'ctx>>,
    },
    Jump { target: BasicBlock<'ctx> },
    Branch { cond: IntValue<'ctx>, on_true: BasicBlock<'ctx>, on_false: BasicBlock<'ctx> },
    Return { value: Option<IntValue<'ctx>> },
    Unreachable,
}

/// An instruction builder, whether it has been positioned, and the record of
/// the calls into LLVM that were made with it at hand. The builder is reached
/// through the functions below only, so nothing else moves it or builds with it.
pub struct Cursor<'ctx> {
    builder: Builder<'ctx>,
    positioned: Ghost<bool>,
    record: Ghost<Seq<Built<'ctx>>>,
}

impl<'ctx> Cursor<'ctx> {
    /// The builder has been put at the end of some block.
    pub closed spec fn is_positioned(&self) -> bool {
        self.positioned@
    }

    /// The calls made so far, in the order in which they were made.
    pub closed spec fn built(&self) -> Seq<Built<'ctx>> {
        self.record@
    }
}

/// `Context::create_builder`: a new instruction builder. It starts out
/// positioned nowhere, and nothing has been built with it.
#[verifier::external_body]
pub(crate) fn create_builder<'ctx>(context: &'ctx Context) -> (cursor: Cursor<'ctx>)
    ensures
        !cursor.is_positioned(),
        cursor.built() == Seq::<Built<'ctx>>::empty(),
{
    Cursor { builder: context.create_builder(), positioned: Ghost(false), record: Ghost(Seq::empty()) }
}

/// `Context::create_module`: a new module of the context, under the given name.
/// The call goes on the record, with what it was handed and what it gave.
#[verifier::external_body]
pub(crate) fn create_module<'ctx>(cursor: &mut Cursor<'ctx>, context: &'ctx Context, name: &str) -> (module:
    Module<'ctx>)
    ensures
        final(cursor).is_positioned() == old(cursor).is_positioned(),
        final(cursor).built() == old(cursor).built().push(Built::Module { name: name@, module }),
{
    context.create_module(name)
}

/// `Context::i32_type`: the context's 32-bit integer type.
/// The call goes on the record, with what it was handed and what it gave.
#[verifier::external_body]
pub(crate) fn i32_type<'ctx>(cursor: &mut Cursor<'ctx>, context: &'ctx Context) -> (ty: IntType<'ctx>)
    ensures
        final(cursor).is_positioned() == old(cursor).is_positioned(),
        final(cursor).built() == old(cursor).built().push(Built::I32Type { ty }),
{
    context.i32_type()
}

/// `Context::bool_type`: the context's 1-bit integer type.
/// The call goes on the record, with what it was handed and what it gave.
#[verifier::external_body]
pub(crate) fn bool_type<'ctx>(cursor: &mut Cursor<'ctx>, context: &'ctx Context) -> (ty: IntType<'ctx>)
    ensures
        final(cursor).is_positioned() == old(cursor).is_positioned(),
        final(cursor).built() == old(cursor).built().push(Built::BoolType { ty }),
{
    context.bool_type()
}

/// `Context::void_type`: the context's void type.
/// The call goes on the record, with what it was handed and what it gave.
#[verifier::external_body]
pub(crate) fn void_type<'ctx>(cursor: &mut Cursor<'ctx>, context: &'ctx Context) -> (ty: VoidType<'ctx>)
    ensures
        final(cursor).is_positioned() == old(cursor).is_positioned(),
        final(cursor).built() == old(cursor).built().push(Built::VoidType { ty }),
{
    context.void_type()
}

/// `IntType::fn_type`: the type of the functions that take `params` and return
/// `ret`; never variadic.
/// The call goes on the record, with what it was handed and what it gave.
#[verifier::external_body]
pub(crate) fn int_fn_type<'ctx>(cursor: &mut Cursor<'ctx>, ret: IntType<'ctx>, params: &Vec<IntType<'ctx>>) -> (ty:
    FunctionType<'ctx>)
    ensures
        final(cursor).is_positioned() == old(cursor).is_positioned(),
        final(cursor).built() == old(cursor).built().push(
            Built::IntFnType { ret, params: params@, ty },
        ),
{
    let params: Vec<BasicMetadataTypeEnum<'ctx>> = params.iter().map(|p| (*p).into()).collect();
    ret.fn_type(&params, false)
}

/// `VoidType::fn_type`: the type of the functions that take `params` and return
/// nothing; never variadic.
/// The call goes on the record, with what it was handed and what it gave.
#[verifier::external_body]
pub(crate) fn void_fn_type<'ctx>(cursor: &mut Cursor<'ctx>, ret: VoidType<'ctx>, params: &Vec<IntType<'ctx>>) -> (ty:
    FunctionType<'ctx>)
    ensures
        final(cursor).is_positioned() == old(cursor).is_positioned(),
        final(cursor).built() == old(cursor).built().push(
            Built::VoidFnType { ret, params: params@, ty },
        ),
{
    let params: Vec<BasicMetadataTypeEnum<'ctx>> = params.iter().map(|p| (*p).into()).collect();
    ret.fn_type(&params, false)
}

/// `Module::add_function`: adds a function of the given type to the module,
/// with the default linkage. LLVM picks another name where the module holds
/// the given one already, so nothing is claimed of the name that the function
/// bears in the end; the record holds the name that was asked for.
/// The call goes on the record, with what it was handed and what it gave.
#[verifier::external_body]
pub(crate) fn add_function<'ctx>(
    cursor: &mut Cursor<'ctx>,
    module: &Module<'ctx>,
    name: &str,
    ty: FunctionType<'ctx>,
) -> (function: FunctionValue<'ctx>)
    ensures
        final(cursor).is_positioned() == old(cursor).is_positioned(),
        final(cursor).built() == old(cursor).built().push(
            Built::Function { name: name@, ty, function },
        ),
{
    module.add_function(name, ty, None)
}

/// `FunctionValue::get_nth_param`: the parameter with index `nth` where it
/// exists and is an integer, else `None`. The call adds one to `nth`, so the
/// largest 32-bit index is left out. It is made only on functions that
/// `add_function` above gave, whose parameters are integers.
/// The call goes on the record, with what it was handed and what it gave.
#[verifier::external_body]
pub(crate) fn nth_param<'ctx>(cursor: &mut Cursor<'ctx>, function: FunctionValue<'ctx>, nth: u32) -> (value:
    Option<IntValue<'ctx>>)
    requires
        nth < u32::MAX,
    ensures
        final(cursor).is_positioned() == old(cursor).is_positioned(),
        final(cursor).built() == old(cursor).built().push(
            Built::Parameter { function, index: nth, value },
        ),
{
    function.get_nth_param(nth).and_then(|v| IntValue::try_from(v).ok())
}

/// `Context::append_basic_block`: a new block at the end of the function.
/// The call goes on the record, with what it was handed and what it gave.
#[verifier::external_body]
pub(crate) fn append_basic_block<'ctx>(
    cursor: &mut Cursor<'ctx>,
    context: &'ctx Context,
    function: FunctionValue<'ctx>,
    name: &str,
) -> (block: BasicBlock<'ctx>)
    ensures
        final(cursor).is_positioned() == old(cursor).is_positioned(),
        final(cursor).built() == old(cursor).built().push(
            Built::Block { function, label: name@, block },
        ),
{
    context.append_basic_block(function, name)
}

/// `Builder::position_at_end`: what is built next goes to the end of `block`.
/// From then on the builder counts as positioned.
/// The call goes on the record, with what it was handed and what it gave.
#[verifier::external_body]
pub(crate) fn position_at_end<'ctx>(cursor: &mut Cursor<'ctx>, block: BasicBlock<'ctx>)
    ensures
        final(cursor).is_positioned(),
        final(cursor).built() == old(cursor).built().push(Built::Position { block }),
{
    cursor.builder.position_at_end(block)
}

/// `IntType::const_int`: the constant of this type with the low bits of
/// `bits`; not sign-extended.
/// The call goes on the record, with what it was handed and what it gave.
#[verifier::external_body]
pub(crate) fn const_int<'ctx>(cursor: &mut Cursor<'ctx>, ty: IntType<'ctx>, bits: u64) -> (value: IntValue<
    'ctx,
>)
    ensures
        final(cursor).is_positioned() == old(cursor).is_positioned(),
        final(cursor).built() == old(cursor).built().push(Built::Constant { ty, bits, value }),
{
    ty.const_int(bits, false)
}

/// `Builder::build_alloca`: a stack slot for one value of the type.
/// A positioned builder does not refuse it; a builder that refuses builds
/// nothing.
/// The call goes on the record, with what it was handed and what it gave.
#[verifier::external_body]
pub(crate) fn build_alloca<'ctx>(
    cursor: &mut Cursor<'ctx>,
    ty: IntType<'ctx>,
    name: &str,
) -> (r: Result<PointerValue<'ctx>, BuilderError>)
    ensures
        old(cursor).is_positioned() ==> r is Ok,
        final(cursor).is_positioned() == old(cursor).is_positioned(),
        final(cursor).built() == match r {
            Ok(slot) => old(cursor).built().push(Built::Alloca { ty, name: name@, slot }),
            Err(_) => old(cursor).built(),
        },
{
    cursor.builder.build_alloca(ty, name)
}

/// `Builder::build_store`: a store of `value` to `slot`.
/// A positioned builder does not refuse it; a builder that refuses builds
/// nothing.
/// The call goes on the record, with what it was handed and what it gave.
#[verifier::external_body]
pub(crate) fn build_store<'ctx>(
    cursor: &mut Cursor<'ctx>,
    slot: PointerValue<'ctx>,
    value: IntValue<'ctx>,
) -> (r: Result<(), BuilderError>)
    ensures
        old(cursor).is_positioned() ==> r is Ok,
        final(cursor).is_positioned() == old(cursor).is_positioned(),
        final(cursor).built() == match r {
            Ok(_) => old(cursor).built().push(Built::Store { slot, value }),
            Err(_) => old(cursor).built(),
        },
{
    cursor.builder.build_store(slot, value).map(|_| ())
}

/// `Builder::build_load`: a load from `slot`; `None` where what is loaded is no
/// integer. It is made only on slots that `build_alloca` above gave.
/// A positioned builder does not refuse it; a builder that refuses builds
/// nothing.
/// The call goes on the record, with what it was handed and what it gave.
#[verifier::external_body]
pub(crate) fn build_load<'ctx>(
    cursor: &mut Cursor<'ctx>,
    slot: PointerValue<'ctx>,
    name: &str,
) -> (r: Result<Option<IntValue<'ctx>>, BuilderError>)
    ensures
        old(cursor).is_positioned() ==> r is Ok,
        final(cursor).is_positioned() == old(cursor).is_positioned(),
        final(cursor).built() == match r {
            Ok(value) => old(cursor).built().push(Built::Load { slot, name: name@, value }),
            Err(_) => old(cursor).built(),
        },
{
    Ok(IntValue::try_from(cursor.builder.build_load(slot, name)?).ok())
}

/// `Builder::build_int_neg`: the negation of `operand`.
/// A positioned builder does not refuse it; a builder that refuses builds
/// nothing.
/// The call goes on the record, with what it was handed and what it gave.
#[verifier::external_body]
pub(crate) fn build_int_neg<'ctx>(
    cursor: &mut Cursor<'ctx>,
    operand: IntValue<'ctx>,
    name: &str,
) -> (r: Result<IntValue<'ctx>, BuilderError>)
    ensures
        old(cursor).is_positioned() ==> r is Ok,
        final(cursor).is_positioned() == old(cursor).is_positioned(),
        final(cursor).built() == match r {
            Ok(value) => old(cursor).built().push(Built::Neg { operand, name: name@, value }),
            Err(_) => old(cursor).built(),
        },
{
    cursor.builder.build_int_neg(operand, name)
}

/// `Builder::build_int_add`: the sum of two values.
/// A positioned builder does not refuse it; a builder that refuses builds
/// nothing.
/// The call goes on the record, with what it was handed and what it gave.
#[verifier::external_body]
pub(crate) fn build_int_add<'ctx>(
    cursor: &mut Cursor<'ctx>,
    lhs: IntValue<'ctx>,
    rhs: IntValue<'ctx>,
    name: &str,
) -> (r: Result<IntValue<'ctx>, BuilderError>)
    ensures
        old(cursor).is_positioned() ==> r is Ok,
        final(cursor).is_positioned() == old(cursor).is_positioned(),
        final(cursor).built() == match r {
            Ok(value) => old(cursor).built().push(Built::Binary { op: Primitive::Add, lhs, rhs, name: name@, value }),
            Err(_) => old(cursor).built(),
        },
{
    cursor.builder.build_int_add(lhs, rhs, name)
}

/// `Builder::build_int_sub`: the difference of two values.
/// A positioned builder does not refuse it; a builder that refuses builds
/// nothing.
/// The call goes on the record, with what it was handed and what it gave.
#[verifier::external_body]
pub(crate) fn build_int_sub<'ctx>(
    cursor: &mut Cursor<'ctx>,
    lhs: IntValue<'ctx>,
    rhs: IntValue<'ctx>,
    name: &str,
) -> (r: Result<IntValue<'ctx>, BuilderError>)
    ensures
        old(cursor).is_positioned() ==> r is Ok,
        final(cursor).is_positioned() == old(cursor).is_positioned(),
        final(cursor).built() == match r {
            Ok(value) => old(cursor).built().push(Built::Binary { op: Primitive::Sub, lhs, rhs, name: name@, value }),
            Err(_) => old(cursor).built(),
        },
{
    cursor.builder.build_int_sub(lhs, rhs, name)
}

/// `Builder::build_int_mul`: the product of two values.
/// A positioned builder does not refuse it; a builder that refuses builds
/// nothing.
/// The call goes on the record, with what it was handed and what it gave.
#[verifier::external_body]
pub(crate) fn build_int_mul<'ctx>(
    cursor: &mut Cursor<'ctx>,
    lhs: IntValue<'ctx>,
    rhs: IntValue<'ctx>,
    name: &str,
) -> (r: Result<IntValue<'ctx>, BuilderError>)
    ensures
        old(cursor).is_positioned() ==> r is Ok,
        final(cursor).is_positioned() == old(cursor).is_positioned(),
        final(cursor).built() == match r {
            Ok(value) => old(cursor).built().push(Built::Binary { op: Primitive::Mul, lhs, rhs, name: name@, value }),
            Err(_) => old(cursor).built(),
        },
{
    cursor.builder.build_int_mul(lhs, rhs, name)
}

/// `Builder::build_int_signed_div`: the signed quotient of two values.
/// A positioned builder does not refuse it; a builder that refuses builds
/// nothing.
/// The call goes on the record, with what it was handed and what it gave.
#[verifier::external_body]
pub(crate) fn build_int_signed_div<'ctx>(
    cursor: &mut Cursor<'ctx>,
    lhs: IntValue<'ctx>,
    rhs: IntValue<'ctx>,
    name: &str,
) -> (r: Result<IntValue<'ctx>, BuilderError>)
    ensures
        old(cursor).is_positioned() ==> r is Ok,
        final(cursor).is_positioned() == old(cursor).is_positioned(),
        final(cursor).built() == match r {
            Ok(value) => old(cursor).built().push(Built::Binary { op: Primitive::SignedDiv, lhs, rhs, name: name@, value }),
            Err(_) => old(cursor).built(),
        },
{
    cursor.builder.build_int_signed_div(lhs, rhs, name)
}

/// `Builder::build_and`: the bitwise conjunction of two values.
/// A positioned builder does not refuse it; a builder that refuses builds
/// nothing.
/// The call goes on the record, with what it was handed and what it gave.
#[verifier::external_body]
pub(crate) fn build_and<'ctx>(
    cursor: &mut Cursor<'ctx>,
    lhs: IntValue<'ctx>,
    rhs: IntValue<'ctx>,
    name: &str,
) -> (r: Result<IntValue<'ctx>, BuilderError>)
    ensures
        old(cursor).is_positioned() ==> r is Ok,
        final(cursor).is_positioned() == old(cursor).is_positioned(),
        final(cursor).built() == match r {
            Ok(value) => old(cursor).built().push(Built::Binary { op: Primitive::And, lhs, rhs, name: name@, value }),
            Err(_) => old(cursor).built(),
        },
{
    cursor.builder.build_and(lhs, rhs, name)
}

/// `Builder::build_or`: the bitwise disjunction of two values.
/// A positioned builder does not refuse it; a builder that refuses builds
/// nothing.
/// The call goes on the record, with what it was handed and what it gave.
#[verifier::external_body]
pub(crate) fn build_or<'ctx>(
    cursor: &mut Cursor<'ctx>,
    lhs: IntValue<'ctx>,
    rhs: IntValue<'ctx>,
    name: &str,
) -> (r: Result<IntValue<'ctx>, BuilderError>)
    ensures
        old(cursor).is_positioned() ==> r is Ok,
        final(cursor).is_positioned() == old(cursor).is_positioned(),
        final(cursor).built() == match r {
            Ok(value) => old(cursor).built().push(Built::Binary { op: Primitive::Or, lhs, rhs, name: name@, value }),
            Err(_) => old(cursor).built(),
        },
{
    cursor.builder.build_or(lhs, rhs, name)
}

/// `Builder::build_int_compare`: the comparison of two values under the
/// predicate of the same name.
/// A positioned builder does not refuse it; a builder that refuses builds
/// nothing.
/// The call goes on the record, with what it was handed and what it gave.
#[verifier::external_body]
pub(crate) fn build_int_compare<'ctx>(
    cursor: &mut Cursor<'ctx>,
    op: Predicate,
    lhs: IntValue<'ctx>,
    rhs: IntValue<'ctx>,
    name: &str,
) -> (r: Result<IntValue<'ctx>, BuilderError>)
    ensures
        old(cursor).is_positioned() ==> r is Ok,
        final(cursor).is_positioned() == old(cursor).is_positioned(),
        final(cursor).built() == match r {
            Ok(value) => old(cursor).built().push(Built::Binary { op: Primitive::Compare(op), lhs, rhs, name: name@, value }),
            Err(_) => old(cursor).built(),
        },
{
    let op = match op {
        Predicate::EQ => IntPredicate::EQ,
        Predicate::NE => IntPredicate::NE,
        Predicate::SGT => IntPredicate::SGT,
        Predicate::SLT => IntPredicate::SLT,
        Predicate::SGE => IntPredicate::SGE,
        Predicate::SLE => IntPredicate::SLE,
    };
    cursor.builder.build_int_compare(op, lhs, rhs, name)
}

/// `Builder::build_call`: a call of `callee` with the arguments; `None` where
/// the call yields no integer, as for a callee that returns nothing. It is made
/// only on functions that `add_function` above gave, which return an integer or
/// nothing.
/// A positioned builder does not refuse it; a builder that refuses builds
/// nothing.
/// The call goes on the record, with what it was handed and what it gave.
#[verifier::external_body]
pub(crate) fn build_call<'ctx>(
    cursor: &mut Cursor<'ctx>,
    callee: FunctionValue<'ctx>,
    args: &Vec<IntValue<'ctx>>,
    name: &str,
) -> (r: Result<Option<IntValue<'ctx>>, BuilderError>)
    ensures
        old(cursor).is_positioned() ==> r is Ok,
        final(cursor).is_positioned() == old(cursor).is_positioned(),
        final(cursor).built() == match r {
            Ok(value) => old(cursor).built().push(Built::Call { callee, args: args@, name: name@, value }),
            Err(_) => old(cursor).built(),
        },
{
    let args: Vec<BasicMetadataValueEnum<'ctx>> = args.iter().map(|a| (*a).into()).collect();
    let site = cursor.builder.build_call(callee, &args, name)?;
    Ok(site.try_as_basic_value().left().and_then(|v| IntValue::try_from(v).ok()))
}

/// `Builder::build_unconditional_branch`: a jump to `target`.
/// A positioned builder does not refuse it; a builder that refuses builds
/// nothing.
/// The call goes on the record, with what it was handed and what it gave.
#[verifier::external_body]
pub(crate) fn build_unconditional_branch<'ctx>(
    cursor: &mut Cursor<'ctx>,
    target: BasicBlock<'ctx>,
) -> (r: Result<(), BuilderError>)
    ensures
        old(cursor).is_positioned() ==> r is Ok,
        final(cursor).is_positioned() == old(cursor).is_positioned(),
        final(cursor).built() == match r {
            Ok(_) => old(cursor).built().push(Built::Jump { target }),
            Err(_) => old(cursor).built(),
        },
{
    cursor.builder.build_unconditional_branch(target).map(|_| ())
}

/// `Builder::build_conditional_branch`: a jump to `on_true` or to `on_false`,
/// as `cond` decides.
/// A positioned builder does not refuse it; a builder that refuses builds
/// nothing.
/// The call goes on the record, with what it was handed and what it gave.
#[verifier::external_body]
pub(crate) fn build_conditional_branch<'ctx>(
    cursor: &mut Cursor<'ctx>,
    cond: IntValue<'ctx>,
    on_true: BasicBlock<'ctx>,
    on_false: BasicBlock<'ctx>,
) -> (r: Result<(), BuilderError>)
    ensures
        old(cursor).is_positioned() ==> r is Ok,
        final(cursor).is_positioned() == old(cursor).is_positioned(),
        final(cursor).built() == match r {
            Ok(_) => old(cursor).built().push(Built::Branch { cond, on_true, on_false }),
            Err(_) => old(cursor).built(),
        },
{
    cursor.builder.build_conditional_branch(cond, on_true, on_false).map(|_| ())
}

/// `Builder::build_return`: a return of `value`, or of nothing.
/// A positioned builder does not refuse it; a builder that refuses builds
/// nothing.
/// The call goes on the record, with what it was handed and what it gave.
#[verifier::external_body]
pub(crate) fn build_return<'ctx>(
    cursor: &mut Cursor<'ctx>,
    value: Option<IntValue<'ctx>>,
) -> (r: Result<(), BuilderError>)
    ensures
        old(cursor).is_positioned() ==> r is Ok,
        final(cursor).is_positioned() == old(cursor).is_positioned(),
        final(cursor).built() == match r {
            Ok(_) => old(cursor).built().push(Built::Return { value }),
            Err(_) => old(cursor).built(),
        },
{
    match value {
        Some(v) => cursor.builder.build_return(Some(&v)).map(|_| ()),
        None => cursor.builder.build_return(None).map(|_| ()),
    }
}

/// `Builder::build_unreachable`: the mark that control never gets here.
/// A positioned builder does not refuse it; a builder that refuses builds
/// nothing.
/// The call goes on the record, with what it was handed and what it gave.
#[verifier::external_body]
pub(crate) fn build_unreachable<'ctx>(
    cursor: &mut Cursor<'ctx>,
) -> (r: Result<(), BuilderError>)
    ensures
        old(cursor).is_positioned() ==> r is Ok,
        final(cursor).is_positioned() == old(cursor).is_positioned(),
        final(cursor).built() == match r {
            Ok(_) => old(cursor).built().push(Built::Unreachable),
            Err(_) => old(cursor).built(),
        },
{
    cursor.builder.build_unreachable().map(|_| ())
}

} // verus!
