//! From a syntax tree to a program in the intermediate representation.

use crate::compiler::errors::{CompileFault, CompilerError};
use crate::compiler::ir_context::{IRContext, IRContextView};
use crate::compiler::ir_function::IRFunctionView;
use crate::compiler::ir_node::topologically_sound;
use crate::compiler::loading::{load_context, loaded_modules, Loaded};
use crate::compiler::nodes::ContextNode;
use crate::compiler::resolution::{
    lemma_resolve_functions_sound, resolve_function_calls, resolve_functions,
};
use crate::registry::function::{FunctionRegistry, RegistryView};
use vstd::prelude::*;

verus! {

/// Nothing loaded.
pub open spec fn nothing_loaded() -> Loaded {
    Loaded { structs: Seq::empty(), functions: Seq::empty(), positions: Seq::empty() }
}

/// The program that a syntax tree stands for: its modules are loaded, and
/// then the calls of functions of the program are bound.
pub open spec fn compiled(context: ContextNode, registry: RegistryView) -> Result<
    IRContextView,
    CompileFault,
> {
    match loaded_modules(
        nothing_loaded(),
        context.modules@,
        context.modules@.len(),
        Seq::empty(),
        registry,
    ) {
        Ok(loaded) => match resolve_functions(
            loaded.functions,
            loaded.positions,
            loaded.functions.len(),
        ) {
            Ok(functions) => Ok(IRContextView { structs: loaded.structs, functions }),
            Err(e) => Err(e),
        },
        Err(e) => Err(e),
    }
}

/// Whether in every function of a program every reference to a statement
/// goes to an earlier statement of the function.
pub open spec fn program_sound(program: IRContextView) -> bool {
    forall|i: int|
        0 <= i < program.functions.len() ==> topologically_sound(
            (#[trigger] program.functions[i]).statements,
        )
}

/// Compiles a syntax tree into the intermediate representation.
pub fn compile_context(context: ContextNode, function_registry: &FunctionRegistry) -> (r: Result<
    IRContext,
    CompilerError,
>)
    ensures
        match r {
            Ok(program) => {
                &&& compiled(context, function_registry@) == Ok::<IRContextView, CompileFault>(
                    program@,
                )
                &&& program.wf()
                &&& program_sound(program@)
            },
            Err(e) => compiled(context, function_registry@) == Err::<IRContextView, CompileFault>(
                e@,
            ),
        },
{
    let loader = match load_context(&context.modules, function_registry) {
        Ok(loader) => loader,
        Err(e) => {
            return Err(e);
        },
    };
    proof {
        lemma_resolve_functions_sound(
            loader@.functions,
            loader@.positions,
            loader@.functions.len(),
        );
    }
    let (ir_context, positions) = loader.finish();
    resolve_function_calls(ir_context, &positions)
}

} // verus!
