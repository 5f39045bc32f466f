//! From a parsed program to an LLVM module.

use vstd::prelude::*;
use inkwell::context::Context;
use crate::ast::Node;
use crate::compiler::compile_program;
use crate::emit::{emit_program, table_reads_uncertain, EmitError, Emitted};
use crate::script::{fits, program_built};
use crate::error::LangError;
use crate::lowering::program_spec;

verus! {

/// Why a program did not become a module.
#[derive(Debug, PartialEq, Eq)]
pub enum CompileError {
    /// Lowering failed; no module was begun.
    Lowering(LangError),
    /// The function table was lowered, and LLVM did not take it.
    Emission(EmitError),
}

/// Compiles a parsed program into a module of `context`, named `program`: the
/// program is lowered to its function table in two passes, and the table is
/// handed to LLVM.
///
/// A program that does not lower fails with the failure of lowering. One that
/// does becomes a module, unless one of its blocks reads what a parameter, a
/// load or a call yields and LLVM yielded nothing there: then the failure is
/// `NoValue`. A program without declarations always becomes a module.
///
/// The module comes back with the record of the calls into LLVM that made it:
/// exactly those that the lowered table stands for.
pub fn compile<'ctx>(program: &Vec<Box<Node>>, context: &'ctx Context) -> (r: Result<
    Emitted<'ctx>,
    CompileError,
>)
    ensures
        program_spec(program@) matches Err(failure) ==> r matches Err(CompileError::Lowering(e))
            && e@ == failure,
        program_spec(program@) matches Ok(table) ==> r is Ok || (r matches Err(
            CompileError::Emission(EmitError::NoValue),
        ) && table_reads_uncertain(table)),
        program@.len() == 0 ==> r is Ok,
        r matches Ok(done) ==> {
            &&& program_spec(program@) matches Ok(table)
            &&& done.wiring@.module == done.module
            &&& fits(table, done.wiring@)
            &&& done.cursor.built() == program_built(table, "program"@, done.wiring@)
        },
{
    let table = match compile_program(program) {
        Ok(t) => t,
        Err(e) => {
            return Err(CompileError::Lowering(e));
        },
    };
    match emit_program(&table, context, "program") {
        Ok(done) => Ok(done),
        Err(e) => Err(CompileError::Emission(e)),
    }
}

} // verus!
